//! What holds of every build: laws that relate the handlers, the container
//! and the builder.
use vstd::prelude::*;
use crate::circuit_input_builder::{
    begun, block_outcome, built_block, initial_builder, run_steps, step_outcome, tx_outcome, Block,
    BlockContext, BlockView, BuildError, BuilderView, TransactionView, TxInput,
};
use crate::opcode::{stack_arity, Handler};
use crate::opcodes::context::{account_read, field_value};
use crate::opcodes::calls::{account_reads, called_frame, created_frame, enters};
use crate::opcodes::logs::{data_accesses, log_access, topic_accesses};
use crate::opcodes::memory::{
    loaded_word, memory_access, memory_after, memory_copies, memory_reads, memory_writes,
};
use crate::opcodes::stack_only::results;
use crate::opcodes::storage::{is_warm, storage_access, warm_mark};
use crate::opcodes::transient::{transient_access, transient_value};
use crate::opcodes::{handler_accesses, handler_fails, handler_state, stack_reads, stack_writes};
use crate::operation::{
    counted_from_one, numbered, reference_to, resolve, Op, Operation, RwReference, StackAddress,
    Target, TxLogFieldTag, RW,
};
use crate::state::{
    append_numbered, frame_accesses, has_room, references, stack_access, Access, AccountState,
    StateView, StepView,
};
use crate::trace::{storage_lookup, GethExecStep, GethExecTrace, STACK_LIMIT};
use crate::word::Word;

verus! {

/// Whether an access is one to the stack.
pub open spec fn on_stack(a: Access) -> bool {
    a.op.spec_target() == Target::Stack
}

/// The accesses to the stack among `accesses`, in their order.
pub open spec fn stack_accesses(accesses: Seq<Access>) -> Seq<Access> {
    accesses.filter(|a: Access| on_stack(a))
}

/// The words that the instruction at `steps[0]`, whose handler is `h`, leaves
/// on the stack, the top first.
pub open spec fn written_words(h: Handler, s: StateView, steps: Seq<GethExecStep>) -> Seq<Word> {
    match h {
        Handler::StackOnly { pushes, .. } => results(steps, pushes as nat),
        Handler::Sload => seq![storage_lookup(steps[0].storage@, steps[0].stack@[0]).unwrap()],
        Handler::Tload => seq![
            transient_value(s.transient, s.frames.last().callee, steps[0].stack@[0]),
        ],
        Handler::Mload => seq![loaded_word(steps[0].memory@, steps[0].stack@[0].value())],
        Handler::Call { .. } => results(steps, 1),
        Handler::Create { .. } => results(steps, 1),
        Handler::Keccak => results(steps, 1),
        Handler::AccountRead { .. } => results(steps, 1),
        Handler::ContextRead { .. } => results(steps, 1),
        _ => Seq::empty(),
    }
}

proof fn lemma_filter_keeps_all(s: Seq<Access>, pred: spec_fn(Access) -> bool)
    requires
        forall|i: int| 0 <= i < s.len() ==> pred(#[trigger] s[i]),
    ensures
        s.filter(pred) == s,
    decreases s.len(),
{
    reveal(Seq::filter);
    if s.len() > 0 {
        lemma_filter_keeps_all(s.drop_last(), pred);
        assert(s.drop_last().push(s.last()) =~= s);
    } else {
        assert(s.filter(pred) =~= s);
    }
}

proof fn lemma_filter_drops_all(s: Seq<Access>, pred: spec_fn(Access) -> bool)
    requires
        forall|i: int| 0 <= i < s.len() ==> !pred(#[trigger] s[i]),
    ensures
        s.filter(pred) == Seq::<Access>::empty(),
    decreases s.len(),
{
    reveal(Seq::filter);
    if s.len() > 0 {
        lemma_filter_drops_all(s.drop_last(), pred);
    } else {
        assert(s.filter(pred) =~= Seq::<Access>::empty());
    }
}

proof fn lemma_stack_part(reads: Seq<Access>, effects: Seq<Access>, writes: Seq<Access>)
    requires
        forall|i: int| 0 <= i < reads.len() ==> on_stack(#[trigger] reads[i]),
        forall|i: int| 0 <= i < effects.len() ==> !on_stack(#[trigger] effects[i]),
        forall|i: int| 0 <= i < writes.len() ==> on_stack(#[trigger] writes[i]),
    ensures
        stack_accesses(reads + effects + writes) == reads + writes,
{
    let pred = |a: Access| on_stack(a);
    Seq::filter_distributes_over_add(reads + effects, writes, pred);
    Seq::filter_distributes_over_add(reads, effects, pred);
    lemma_filter_keeps_all(reads, pred);
    lemma_filter_keeps_all(writes, pred);
    lemma_filter_drops_all(effects, pred);
    assert(reads + Seq::<Access>::empty() =~= reads);
}

/// The accesses of the instruction at `steps[0]` that are not to the stack.
spec fn effects(h: Handler, s: StateView, steps: Seq<GethExecStep>) -> Seq<Access> {
    let step = steps[0];
    let call_id = s.frames.last().call_id;
    match h {
        Handler::Sload => seq![
            warm_mark(s, step.stack@[0]),
            storage_access(
                s,
                RW::READ,
                step.stack@[0],
                storage_lookup(step.storage@, step.stack@[0]).unwrap(),
                storage_lookup(step.storage@, step.stack@[0]).unwrap(),
            ),
        ],
        Handler::Sstore => seq![
            warm_mark(s, step.stack@[0]),
            storage_access(
                s,
                RW::WRITE,
                step.stack@[0],
                step.stack@[1],
                storage_lookup(step.storage@, step.stack@[0]).unwrap(),
            ),
        ],
        Handler::Tload => seq![
            transient_access(
                s,
                RW::READ,
                step.stack@[0],
                transient_value(s.transient, s.frames.last().callee, step.stack@[0]),
                transient_value(s.transient, s.frames.last().callee, step.stack@[0]),
            ),
        ],
        Handler::Tstore => seq![
            transient_access(
                s,
                RW::WRITE,
                step.stack@[0],
                step.stack@[1],
                transient_value(s.transient, s.frames.last().callee, step.stack@[0]),
            ),
        ],
        Handler::Mload => memory_reads(call_id, step.memory@, step.stack@[0].value(), 32),
        Handler::Mstore => memory_writes(call_id, step.stack@[1], step.stack@[0].value(), 32),
        Handler::Mstore8 => seq![
            memory_access(
                call_id,
                RW::WRITE,
                step.stack@[0].value() as u64,
                (step.stack@[1].l0 & 0xff) as u8,
            ),
        ],
        Handler::Log { topics } => seq![
            log_access(
                s.tx_id,
                (s.logs + 1) as u64,
                TxLogFieldTag::Address,
                0,
                s.frames.last().callee.as_word(),
            ),
        ] + topic_accesses(s, step, topics as nat) + data_accesses(
            s,
            step,
            step.stack@[1].value(),
        ),
        Handler::Call { kind } => account_reads(
            s.accounts,
            s.frames.last().callee,
            step.stack@[1].low_address(),
        ) + if enters(steps) {
            frame_accesses(s.tx_id, called_frame(kind, s, steps))
        } else {
            Seq::empty()
        },
        Handler::Create { .. } => account_reads(
            s.accounts,
            s.frames.last().callee,
            s.frames.last().callee,
        ) + if enters(steps) {
            frame_accesses(s.tx_id, created_frame(s, steps))
        } else {
            Seq::empty()
        },
        Handler::Return => memory_reads(
            call_id,
            step.memory@,
            step.stack@[0].value(),
            step.stack@[1].value(),
        ),
        Handler::Keccak => memory_reads(
            call_id,
            step.memory@,
            step.stack@[0].value(),
            step.stack@[1].value(),
        ),
        Handler::CopyToMemory { dest, size, .. } => memory_copies(
            call_id,
            memory_after(steps),
            step.stack@[dest as int].value(),
            step.stack@[dest as int].value(),
            step.stack@[size as int].value(),
        ),
        Handler::AccountRead { pops, field } => seq![
            Access {
                rw: RW::READ,
                op: Op::Account {
                    address: account_read(s, steps, pops as nat),
                    field,
                    value: results(steps, 1)[0],
                    value_prev: results(steps, 1)[0],
                },
            },
        ],
        Handler::ContextRead { field } => seq![
            Access {
                rw: RW::READ,
                op: Op::CallContext {
                    call_id,
                    field,
                    value: field_value(s.tx_id, s.frames.last(), field),
                },
            },
        ],
        Handler::Mcopy => memory_reads(
            call_id,
            step.memory@,
            step.stack@[1].value(),
            step.stack@[2].value(),
        ) + memory_copies(
            call_id,
            step.memory@,
            step.stack@[1].value(),
            step.stack@[0].value(),
            step.stack@[2].value(),
        ),
        _ => Seq::empty(),
    }
}

/// Whether the accesses of the instruction at `steps[0]` are the reads of
/// the words that it takes, then its accesses that are not to the stack, then
/// the writes of the words that it leaves.
spec fn decomposed(h: Handler, s: StateView, steps: Seq<GethExecStep>, pops: nat, pushes: nat) -> bool {
    let call_id = s.frames.last().call_id;
    let stack = steps[0].stack@;
    let middle = effects(h, s, steps);
    &&& handler_accesses(h, s, steps) == stack_reads(call_id, stack, pops) + middle + stack_writes(
        call_id,
        (stack.len() - pops + pushes) as nat,
        written_words(h, s, steps),
    )
    &&& written_words(h, s, steps).len() == pushes
    &&& pops <= stack.len() <= STACK_LIMIT
    &&& stack.len() - pops + pushes <= STACK_LIMIT
    &&& forall|i: int| 0 <= i < middle.len() ==> !on_stack(#[trigger] middle[i])
}

proof fn lemma_decomposed_plain(
    h: Handler,
    s: StateView,
    steps: Seq<GethExecStep>,
    pops: nat,
    pushes: nat,
)
    requires
        steps.len() >= 1,
        stack_arity(h) == Some((pops, pushes)),
        !handler_fails(h, s, steps),
        h is StackOnly || h is Jumpi || h is Halt,
    ensures
        decomposed(h, s, steps, pops, pushes),
{
    let call_id = s.frames.last().call_id;
    let stack = steps[0].stack@;
    let reads = stack_reads(call_id, stack, pops);
    let writes = stack_writes(
        call_id,
        (stack.len() - pops + pushes) as nat,
        written_words(h, s, steps),
    );
    assert(handler_accesses(h, s, steps) =~= reads + effects(h, s, steps) + writes);
}

proof fn lemma_decomposed_storage(
    h: Handler,
    s: StateView,
    steps: Seq<GethExecStep>,
    pops: nat,
    pushes: nat,
)
    requires
        steps.len() >= 1,
        stack_arity(h) == Some((pops, pushes)),
        !handler_fails(h, s, steps),
        h is Sload || h is Sstore || h is Tload || h is Tstore,
    ensures
        decomposed(h, s, steps, pops, pushes),
{
    let call_id = s.frames.last().call_id;
    let stack = steps[0].stack@;
    let reads = stack_reads(call_id, stack, pops);
    let writes = stack_writes(
        call_id,
        (stack.len() - pops + pushes) as nat,
        written_words(h, s, steps),
    );
    assert(handler_accesses(h, s, steps) =~= reads + effects(h, s, steps) + writes);
}

proof fn lemma_decomposed_memory(
    h: Handler,
    s: StateView,
    steps: Seq<GethExecStep>,
    pops: nat,
    pushes: nat,
)
    requires
        steps.len() >= 1,
        stack_arity(h) == Some((pops, pushes)),
        !handler_fails(h, s, steps),
        h is Mload || h is Mstore || h is Mstore8,
    ensures
        decomposed(h, s, steps, pops, pushes),
{
    let call_id = s.frames.last().call_id;
    let stack = steps[0].stack@;
    let reads = stack_reads(call_id, stack, pops);
    let writes = stack_writes(
        call_id,
        (stack.len() - pops + pushes) as nat,
        written_words(h, s, steps),
    );
    assert(handler_accesses(h, s, steps) =~= reads + effects(h, s, steps) + writes);
}

proof fn lemma_decomposed_ranges(
    h: Handler,
    s: StateView,
    steps: Seq<GethExecStep>,
    pops: nat,
    pushes: nat,
)
    requires
        steps.len() >= 1,
        stack_arity(h) == Some((pops, pushes)),
        !handler_fails(h, s, steps),
        h is Return || h is Keccak || h is CopyToMemory || h is Mcopy || h is AccountRead
            || h is ContextRead,
    ensures
        decomposed(h, s, steps, pops, pushes),
{
    let call_id = s.frames.last().call_id;
    let stack = steps[0].stack@;
    let reads = stack_reads(call_id, stack, pops);
    let writes = stack_writes(
        call_id,
        (stack.len() - pops + pushes) as nat,
        written_words(h, s, steps),
    );
    assert(handler_accesses(h, s, steps) =~= reads + effects(h, s, steps) + writes);
}

proof fn lemma_decomposed_log(
    h: Handler,
    s: StateView,
    steps: Seq<GethExecStep>,
    pops: nat,
    pushes: nat,
)
    requires
        steps.len() >= 1,
        stack_arity(h) == Some((pops, pushes)),
        !handler_fails(h, s, steps),
        h is Log,
    ensures
        decomposed(h, s, steps, pops, pushes),
{
    let call_id = s.frames.last().call_id;
    let stack = steps[0].stack@;
    let reads = stack_reads(call_id, stack, pops);
    let writes = stack_writes(
        call_id,
        (stack.len() - pops + pushes) as nat,
        written_words(h, s, steps),
    );
    assert(writes =~= Seq::<Access>::empty());
    assert(handler_accesses(h, s, steps) =~= reads + effects(h, s, steps) + writes);
}

proof fn lemma_decomposed_entry(
    h: Handler,
    s: StateView,
    steps: Seq<GethExecStep>,
    pops: nat,
    pushes: nat,
)
    requires
        steps.len() >= 1,
        stack_arity(h) == Some((pops, pushes)),
        !handler_fails(h, s, steps),
        h is Call || h is Create,
    ensures
        decomposed(h, s, steps, pops, pushes),
{
    let call_id = s.frames.last().call_id;
    let stack = steps[0].stack@;
    let reads = stack_reads(call_id, stack, pops);
    let writes = stack_writes(
        call_id,
        (stack.len() - pops + pushes) as nat,
        written_words(h, s, steps),
    );
    assert(handler_accesses(h, s, steps) =~= reads + effects(h, s, steps) + writes);
}

proof fn lemma_arity_from_parts(
    all: Seq<Access>,
    call_id: usize,
    stack: Seq<Word>,
    pops: nat,
    pushes: nat,
    middle: Seq<Access>,
    words: Seq<Word>,
)
    requires
        all == stack_reads(call_id, stack, pops) + middle + stack_writes(
            call_id,
            (stack.len() - pops + pushes) as nat,
            words,
        ),
        words.len() == pushes,
        pops <= stack.len() <= STACK_LIMIT,
        stack.len() - pops + pushes <= STACK_LIMIT,
        forall|i: int| 0 <= i < middle.len() ==> !on_stack(#[trigger] middle[i]),
    ensures
        stack_accesses(all) == stack_reads(call_id, stack, pops) + stack_writes(
            call_id,
            (stack.len() - pops + pushes) as nat,
            words,
        ),
        stack_accesses(all).len() == pops + pushes,
        forall|i: int|
            0 <= i < pops ==> (#[trigger] stack_accesses(all)[i]) == stack_access(
                call_id,
                RW::READ,
                StackAddress((STACK_LIMIT - stack.len() + i) as usize),
                stack[i],
            ),
        forall|j: int|
            0 <= j < pushes ==> (#[trigger] stack_accesses(all)[pops + j]) == stack_access(
                call_id,
                RW::WRITE,
                StackAddress((STACK_LIMIT - stack.len() + pops - pushes + j) as usize),
                words[j],
            ),
{
    let reads = stack_reads(call_id, stack, pops);
    let writes = stack_writes(call_id, (stack.len() - pops + pushes) as nat, words);
    lemma_stack_part(reads, middle, writes);
    let part = stack_accesses(all);
    assert forall|i: int| 0 <= i < pops implies (#[trigger] part[i]) == stack_access(
        call_id,
        RW::READ,
        StackAddress((STACK_LIMIT - stack.len() + i) as usize),
        stack[i],
    ) by {
        assert(part[i] == reads[i]);
    }
    assert forall|j: int| 0 <= j < pushes implies (#[trigger] part[pops + j]) == stack_access(
        call_id,
        RW::WRITE,
        StackAddress((STACK_LIMIT - stack.len() + pops - pushes + j) as usize),
        words[j],
    ) by {
        assert(part[pops + j] == writes[j]);
    }
}

/// An instruction that takes `pops` words from the top of the stack and
/// leaves `pushes` words there makes `pops + pushes` accesses to the stack,
/// whatever else it does: it reads the words that it takes, from the stack
/// pointer on, and then writes the words that it leaves, up to the place of
/// the last word that it took.
pub proof fn lemma_stack_accesses_follow_arity(
    h: Handler,
    s: StateView,
    steps: Seq<GethExecStep>,
    pops: nat,
    pushes: nat,
)
    requires
        steps.len() >= 1,
        stack_arity(h) == Some((pops, pushes)),
        !handler_fails(h, s, steps),
    ensures
        stack_accesses(handler_accesses(h, s, steps)) == stack_reads(
            s.frames.last().call_id,
            steps[0].stack@,
            pops,
        ) + stack_writes(
            s.frames.last().call_id,
            (steps[0].stack@.len() - pops + pushes) as nat,
            written_words(h, s, steps),
        ),
        written_words(h, s, steps).len() == pushes,
        stack_accesses(handler_accesses(h, s, steps)).len() == pops + pushes,
        pops <= steps[0].stack@.len() <= STACK_LIMIT,
        forall|i: int|
            0 <= i < pops ==> (#[trigger] stack_accesses(handler_accesses(h, s, steps))[i])
                == stack_access(
                s.frames.last().call_id,
                RW::READ,
                StackAddress((STACK_LIMIT - steps[0].stack@.len() + i) as usize),
                steps[0].stack@[i],
            ),
        forall|j: int|
            0 <= j < pushes ==> (#[trigger] stack_accesses(handler_accesses(h, s, steps))[pops + j])
                == stack_access(
                s.frames.last().call_id,
                RW::WRITE,
                StackAddress((STACK_LIMIT - steps[0].stack@.len() + pops - pushes + j) as usize),
                written_words(h, s, steps)[j],
            ),
{
    match h {
        Handler::StackOnly { .. } => lemma_decomposed_plain(h, s, steps, pops, pushes),
        Handler::Jumpi => lemma_decomposed_plain(h, s, steps, pops, pushes),
        Handler::Halt { .. } => lemma_decomposed_plain(h, s, steps, pops, pushes),
        Handler::Sload => lemma_decomposed_storage(h, s, steps, pops, pushes),
        Handler::Sstore => lemma_decomposed_storage(h, s, steps, pops, pushes),
        Handler::Tload => lemma_decomposed_storage(h, s, steps, pops, pushes),
        Handler::Tstore => lemma_decomposed_storage(h, s, steps, pops, pushes),
        Handler::Mload => lemma_decomposed_memory(h, s, steps, pops, pushes),
        Handler::Mstore => lemma_decomposed_memory(h, s, steps, pops, pushes),
        Handler::Mstore8 => lemma_decomposed_memory(h, s, steps, pops, pushes),
        Handler::Log { .. } => lemma_decomposed_log(h, s, steps, pops, pushes),
        Handler::Call { .. } => lemma_decomposed_entry(h, s, steps, pops, pushes),
        Handler::Create { .. } => lemma_decomposed_entry(h, s, steps, pops, pushes),
        Handler::Return => lemma_decomposed_ranges(h, s, steps, pops, pushes),
        Handler::Keccak => lemma_decomposed_ranges(h, s, steps, pops, pushes),
        Handler::CopyToMemory { .. } => lemma_decomposed_ranges(h, s, steps, pops, pushes),
        Handler::Mcopy => lemma_decomposed_ranges(h, s, steps, pops, pushes),
        Handler::AccountRead { .. } => lemma_decomposed_ranges(h, s, steps, pops, pushes),
        Handler::ContextRead { .. } => lemma_decomposed_ranges(h, s, steps, pops, pushes),
        _ => {},
    }
    lemma_arity_from_parts(
        handler_accesses(h, s, steps),
        s.frames.last().call_id,
        steps[0].stack@,
        pops,
        pushes,
        effects(h, s, steps),
        written_words(h, s, steps),
    );
}

/// Operations that are numbered from 1 stay so when accesses are made, as
/// long as the counter can number them.
pub proof fn lemma_append_counted(ops: Seq<Operation>, accesses: Seq<Access>)
    requires
        counted_from_one(ops),
        has_room(ops.len(), accesses.len()),
    ensures
        counted_from_one(append_numbered(ops, accesses)),
{
    let all = append_numbered(ops, accesses);
    assert forall|i: int| 0 <= i < all.len() implies (#[trigger] all[i]).rwc == i + 1 by {
        if i >= ops.len() {
            let j = i - ops.len();
            assert(all[i] == numbered(ops.len() + j, accesses[j].rw, accesses[j].op));
        } else {
            assert(all[i] == ops[i]);
        }
    }
}

/// A handler that records an instruction has made sure that the counter can
/// number its accesses, and what it leaves in the container are the
/// operations that were there and then its accesses.
pub proof fn lemma_handler_appends(h: Handler, s: StateView, steps: Seq<GethExecStep>)
    requires
        steps.len() >= 1,
        !handler_fails(h, s, steps),
    ensures
        has_room(s.ops.len(), handler_accesses(h, s, steps).len()),
        handler_state(h, s, steps).ops == append_numbered(s.ops, handler_accesses(h, s, steps)),
{
    match h {
        Handler::Dup { .. } => {},
        Handler::Swap { .. } => {},
        _ => {
            let arity = stack_arity(h).unwrap();
            match h {
                Handler::StackOnly { .. } => lemma_decomposed_plain(h, s, steps, arity.0, arity.1),
                Handler::Jumpi => lemma_decomposed_plain(h, s, steps, arity.0, arity.1),
                Handler::Halt { .. } => lemma_decomposed_plain(h, s, steps, arity.0, arity.1),
                Handler::Sload => lemma_decomposed_storage(h, s, steps, arity.0, arity.1),
                Handler::Sstore => lemma_decomposed_storage(h, s, steps, arity.0, arity.1),
                Handler::Tload => lemma_decomposed_storage(h, s, steps, arity.0, arity.1),
                Handler::Tstore => lemma_decomposed_storage(h, s, steps, arity.0, arity.1),
                Handler::Mload => lemma_decomposed_memory(h, s, steps, arity.0, arity.1),
                Handler::Mstore => lemma_decomposed_memory(h, s, steps, arity.0, arity.1),
                Handler::Mstore8 => lemma_decomposed_memory(h, s, steps, arity.0, arity.1),
                Handler::Log { .. } => lemma_decomposed_log(h, s, steps, arity.0, arity.1),
                Handler::Call { .. } => lemma_decomposed_entry(h, s, steps, arity.0, arity.1),
                Handler::Create { .. } => lemma_decomposed_entry(h, s, steps, arity.0, arity.1),
                Handler::Return => lemma_decomposed_ranges(h, s, steps, arity.0, arity.1),
                Handler::Keccak => lemma_decomposed_ranges(h, s, steps, arity.0, arity.1),
                Handler::CopyToMemory { .. } => lemma_decomposed_ranges(
                    h,
                    s,
                    steps,
                    arity.0,
                    arity.1,
                ),
                Handler::Mcopy => lemma_decomposed_ranges(h, s, steps, arity.0, arity.1),
                Handler::AccountRead { .. } => lemma_decomposed_ranges(
                    h,
                    s,
                    steps,
                    arity.0,
                    arity.1,
                ),
                Handler::ContextRead { .. } => lemma_decomposed_ranges(
                    h,
                    s,
                    steps,
                    arity.0,
                    arity.1,
                ),
                _ => {},
            }
        },
    }
}

/// A record leaves the operations numbered from 1.
pub proof fn lemma_step_keeps_counted(s: StateView, steps: Seq<GethExecStep>)
    requires
        steps.len() >= 1,
        counted_from_one(s.ops),
    ensures
        match step_outcome(s, steps) {
            Ok((next, step)) => counted_from_one(next.ops),
            Err(e) => true,
        },
{
    match step_outcome(s, steps) {
        Ok((next, step)) => {
            if steps[0].error.is_none() {
                let h = crate::opcode::handler_for(steps[0].op).unwrap();
                lemma_handler_appends(h, s, steps);
                lemma_append_counted(s.ops, handler_accesses(h, s, steps));
            }
        },
        Err(e) => {},
    }
}

/// A run of records leaves the operations numbered from 1.
pub proof fn lemma_run_keeps_counted(s: StateView, trace: Seq<GethExecStep>, from: int)
    requires
        0 <= from,
        counted_from_one(s.ops),
    ensures
        match run_steps(s, trace, from) {
            Ok((last, steps)) => counted_from_one(last.ops),
            Err(at) => true,
        },
    decreases trace.len() - from,
{
    if from < trace.len() {
        lemma_step_keeps_counted(s, trace.skip(from));
        match step_outcome(s, trace.skip(from)) {
            Ok((next, step)) => {
                lemma_run_keeps_counted(next, trace, from + 1);
            },
            Err(e) => {},
        }
    }
}

/// A transaction leaves the operations numbered from 1.
pub proof fn lemma_tx_keeps_counted(b: BuilderView, tx: TxInput, trace: GethExecTrace)
    requires
        counted_from_one(b.state.ops),
    ensures
        match tx_outcome(b, tx, trace) {
            Ok(next) => counted_from_one(next.state.ops),
            Err(e) => true,
        },
{
    if has_room(b.state.ops.len(), 7) {
        let tx_index = b.txs.len() as usize;
        let start = begun(b.state, tx_index, tx);
        lemma_append_counted(
            b.state.ops,
            frame_accesses(tx_index, crate::circuit_input_builder::root_frame(b.state.ops.len(), tx)),
        );
        lemma_run_keeps_counted(start, trace.struct_logs@, 0);
        match run_steps(start, trace.struct_logs@, 0) {
            Ok((s, steps)) => {
                if has_room(s.ops.len(), 2) {
                    lemma_append_counted(
                        s.ops,
                        crate::circuit_input_builder::receipt_accesses(s.tx_id, trace.failed, s.logs),
                    );
                }
            },
            Err(at) => {},
        }
    }
}

/// The transactions of a block leave the operations numbered from 1.
pub proof fn lemma_block_keeps_counted(
    b: BuilderView,
    input: Seq<(TxInput, GethExecTrace)>,
    from: int,
)
    requires
        0 <= from,
        counted_from_one(b.state.ops),
    ensures
        match block_outcome(b, input, from) {
            Ok(last) => counted_from_one(last.state.ops),
            Err(e) => true,
        },
    decreases input.len() - from,
{
    if from < input.len() {
        lemma_tx_keeps_counted(b, input[from].0, input[from].1);
        match tx_outcome(b, input[from].0, input[from].1) {
            Ok(next) => {
                lemma_block_keeps_counted(next, input, from + 1);
            },
            Err(e) => {},
        }
    }
}

/// The counters of the operations of a block that was built are 1, 2, and so
/// on up to the number of its operations, in the order in which the
/// operations were made: none is missing and none comes twice.
pub proof fn lemma_counters_run_from_one(
    context: BlockContext,
    accounts: Seq<AccountState>,
    input: Seq<(TxInput, GethExecTrace)>,
)
    ensures
        match built_block(context, accounts, input) {
            Ok(block) => counted_from_one(block.ops),
            Err(e) => true,
        },
{
    lemma_block_keeps_counted(initial_builder(context, accounts), input, 0);
}

/// Two builds from the same block, accounts and traces give the same block,
/// with the same operations under the same counters, or fail at the same
/// record for the same reason.
pub proof fn lemma_build_is_deterministic(
    context: BlockContext,
    accounts: Seq<AccountState>,
    input: Seq<(TxInput, GethExecTrace)>,
    first: Result<Block, BuildError>,
    second: Result<Block, BuildError>,
)
    requires
        match first {
            Ok(block) => built_block(context, accounts, input) == Ok::<BlockView, BuildError>(
                block@,
            ),
            Err(e) => built_block(context, accounts, input) == Err::<BlockView, BuildError>(e),
        },
        match second {
            Ok(block) => built_block(context, accounts, input) == Ok::<BlockView, BuildError>(
                block@,
            ),
            Err(e) => built_block(context, accounts, input) == Err::<BlockView, BuildError>(e),
        },
    ensures
        first.is_ok() == second.is_ok(),
        first.is_ok() ==> first.unwrap()@ == second.unwrap()@,
        first.is_ok() ==> first.unwrap().container@ == second.unwrap().container@,
        first.is_err() ==> first.unwrap_err() == second.unwrap_err(),
{
}

/// The words that a load from or a store to storage takes from the stack.
pub open spec fn storage_pops(h: Handler) -> int {
    if h is Sload {
        1
    } else {
        2
    }
}

/// In a load from storage and in a store to it, the mark that the slot is
/// touched is made just before the access to the slot, and so has the
/// smaller counter; the two are the only accesses of their kinds. The mark
/// of a slot that the transaction touches for the first time says that the
/// slot was not touched before, and from then on the slot counts as touched.
pub proof fn lemma_mark_precedes_storage_access(h: Handler, s: StateView, steps: Seq<GethExecStep>)
    requires
        steps.len() >= 1,
        h is Sload || h is Sstore,
        !handler_fails(h, s, steps),
    ensures
        ({
            let at = storage_pops(h);
            let accesses = handler_accesses(h, s, steps);
            let after = handler_state(h, s, steps);
            let count = s.ops.len() as int;
            let key = steps[0].stack@[0];
            let account = s.frames.last().callee;
            &&& accesses.len() == 4
            &&& accesses[at] == warm_mark(s, key)
            &&& accesses[at + 1].op.spec_target() == Target::AccountStorage
            &&& accesses[at + 1].op->AccountStorage_address == account
            &&& accesses[at + 1].op->AccountStorage_key == key
            &&& forall|i: int|
                0 <= i < 4 && i != at ==> (#[trigger] accesses[i]).op.spec_target()
                    != Target::TxAccessListAccount
            &&& forall|i: int|
                0 <= i < 4 && i != at + 1 ==> (#[trigger] accesses[i]).op.spec_target()
                    != Target::AccountStorage
            &&& after.ops.len() == count + 4
            &&& after.ops[count + at] == numbered(count + at, accesses[at].rw, accesses[at].op)
            &&& after.ops[count + at + 1] == numbered(
                count + at + 1,
                accesses[at + 1].rw,
                accesses[at + 1].op,
            )
            &&& after.ops[count + at].rwc < after.ops[count + at + 1].rwc
            &&& !is_warm(s.accessed, account, key)
                ==> accesses[at].op->TxAccessListAccount_is_warm_prev == false
            &&& is_warm(after.accessed, account, key)
        }),
{
    let key = steps[0].stack@[0];
    let account = s.frames.last().callee;
    if !is_warm(s.accessed, account, key) {
        let grown = s.accessed.push((account, key));
        assert(grown[grown.len() - 1] == (account, key));
    }
}

/// Whether no read in `accesses` comes after a write to the same location.
pub open spec fn reads_come_first(accesses: Seq<Access>) -> bool {
    forall|i: int, j: int|
        0 <= i < j < accesses.len() && (#[trigger] accesses[i]).rw == RW::WRITE && (
        #[trigger] accesses[j]).rw == RW::READ ==> !accesses[i].op.same_location(accesses[j].op)
}

proof fn lemma_reads_first_in_parts(reads: Seq<Access>, middle: Seq<Access>, writes: Seq<Access>)
    requires
        forall|i: int| 0 <= i < reads.len() ==> (#[trigger] reads[i]).rw == RW::READ,
        forall|i: int| 0 <= i < writes.len() ==> (#[trigger] writes[i]).rw == RW::WRITE,
        reads_come_first(middle),
    ensures
        reads_come_first(reads + middle + writes),
{
    let all = reads + middle + writes;
    assert forall|i: int, j: int|
        0 <= i < j < all.len() && (#[trigger] all[i]).rw == RW::WRITE && (#[trigger] all[j]).rw
            == RW::READ implies !all[i].op.same_location(all[j].op) by {
        if i < reads.len() {
            assert(all[i] == reads[i]);
        } else if j >= reads.len() + middle.len() {
            assert(all[j] == writes[j - reads.len() - middle.len()]);
        } else {
            assert(all[i] == middle[i - reads.len()]);
            assert(all[j] == middle[j - reads.len()]);
        }
    }
}

proof fn lemma_effects_read_first(h: Handler, s: StateView, steps: Seq<GethExecStep>)
    requires
        steps.len() >= 1,
        stack_arity(h).is_some(),
    ensures
        reads_come_first(effects(h, s, steps)),
{
    let middle = effects(h, s, steps);
    match h {
        Handler::Call { kind } => {
            let checks = account_reads(
                s.accounts,
                s.frames.last().callee,
                steps[0].stack@[1].low_address(),
            );
            let opening = frame_accesses(s.tx_id, called_frame(kind, s, steps));
            assert forall|i: int, j: int|
                0 <= i < j < middle.len() && (#[trigger] middle[i]).rw == RW::WRITE && (
                #[trigger] middle[j]).rw == RW::READ implies !middle[i].op.same_location(
                middle[j].op,
            ) by {
                if enters(steps) {
                    assert(middle == checks + opening);
                    if i >= 2 {
                        assert(middle[j] == opening[j - 2]);
                    } else {
                        assert(middle[i] == checks[i]);
                    }
                } else {
                    assert(middle =~= checks);
                }
            }
        },
        Handler::Create { .. } => {
            let checks = account_reads(s.accounts, s.frames.last().callee, s.frames.last().callee);
            let opening = frame_accesses(s.tx_id, created_frame(s, steps));
            assert forall|i: int, j: int|
                0 <= i < j < middle.len() && (#[trigger] middle[i]).rw == RW::WRITE && (
                #[trigger] middle[j]).rw == RW::READ implies !middle[i].op.same_location(
                middle[j].op,
            ) by {
                if enters(steps) {
                    assert(middle == checks + opening);
                    if i >= 2 {
                        assert(middle[j] == opening[j - 2]);
                    } else {
                        assert(middle[i] == checks[i]);
                    }
                } else {
                    assert(middle =~= checks);
                }
            }
        },
        _ => {},
    }
}

/// Within one instruction, no read comes after a write to the same location:
/// where an instruction both reads and writes a location, it reads first.
pub proof fn lemma_reads_precede_writes(h: Handler, s: StateView, steps: Seq<GethExecStep>)
    requires
        steps.len() >= 1,
        !handler_fails(h, s, steps),
    ensures
        reads_come_first(handler_accesses(h, s, steps)),
{
    match h {
        Handler::Dup { .. } => {},
        Handler::Swap { .. } => {},
        _ => {
            let arity = stack_arity(h).unwrap();
            match h {
                Handler::StackOnly { .. } => lemma_decomposed_plain(h, s, steps, arity.0, arity.1),
                Handler::Jumpi => lemma_decomposed_plain(h, s, steps, arity.0, arity.1),
                Handler::Halt { .. } => lemma_decomposed_plain(h, s, steps, arity.0, arity.1),
                Handler::Sload => lemma_decomposed_storage(h, s, steps, arity.0, arity.1),
                Handler::Sstore => lemma_decomposed_storage(h, s, steps, arity.0, arity.1),
                Handler::Tload => lemma_decomposed_storage(h, s, steps, arity.0, arity.1),
                Handler::Tstore => lemma_decomposed_storage(h, s, steps, arity.0, arity.1),
                Handler::Mload => lemma_decomposed_memory(h, s, steps, arity.0, arity.1),
                Handler::Mstore => lemma_decomposed_memory(h, s, steps, arity.0, arity.1),
                Handler::Mstore8 => lemma_decomposed_memory(h, s, steps, arity.0, arity.1),
                Handler::Log { .. } => lemma_decomposed_log(h, s, steps, arity.0, arity.1),
                Handler::Call { .. } => lemma_decomposed_entry(h, s, steps, arity.0, arity.1),
                Handler::Create { .. } => lemma_decomposed_entry(h, s, steps, arity.0, arity.1),
                Handler::Return => lemma_decomposed_ranges(h, s, steps, arity.0, arity.1),
                Handler::Keccak => lemma_decomposed_ranges(h, s, steps, arity.0, arity.1),
                Handler::CopyToMemory { .. } => lemma_decomposed_ranges(
                    h,
                    s,
                    steps,
                    arity.0,
                    arity.1,
                ),
                Handler::Mcopy => lemma_decomposed_ranges(h, s, steps, arity.0, arity.1),
                Handler::AccountRead { .. } => lemma_decomposed_ranges(
                    h,
                    s,
                    steps,
                    arity.0,
                    arity.1,
                ),
                Handler::ContextRead { .. } => lemma_decomposed_ranges(
                    h,
                    s,
                    steps,
                    arity.0,
                    arity.1,
                ),
                _ => {},
            }
            lemma_effects_read_first(h, s, steps);
            let call_id = s.frames.last().call_id;
            let stack = steps[0].stack@;
            lemma_reads_first_in_parts(
                stack_reads(call_id, stack, arity.0),
                effects(h, s, steps),
                stack_writes(
                    call_id,
                    (stack.len() - arity.0 + arity.1) as nat,
                    written_words(h, s, steps),
                ),
            );
        },
    }
}

/// Whether each of the handles `refs` stands for an operation of `ops`: the
/// one with the handle's counter, which is of the handle's kind.
pub open spec fn handles_resolve(ops: Seq<Operation>, refs: Seq<RwReference>) -> bool {
    forall|i: int|
        0 <= i < refs.len() ==> match resolve(ops, #[trigger] refs[i]) {
            Some(o) => o.rwc == refs[i].rwc && o.op.spec_target() == refs[i].target,
            None => false,
        }
}

/// Whether the handles of each of `steps` stand for operations of `ops`.
pub open spec fn steps_resolve(ops: Seq<Operation>, steps: Seq<StepView>) -> bool {
    forall|i: int|
        0 <= i < steps.len() ==> handles_resolve(ops, (#[trigger] steps[i]).bus_mapping_instance)
}

/// Whether the handles of each step of each of `txs` stand for operations of
/// `ops`.
pub open spec fn transactions_resolve(ops: Seq<Operation>, txs: Seq<TransactionView>) -> bool {
    forall|t: int| 0 <= t < txs.len() ==> steps_resolve(ops, (#[trigger] txs[t]).steps)
}

/// Handles that stand for operations go on doing so when accesses are made.
pub proof fn lemma_handles_outlast(ops: Seq<Operation>, more: Seq<Operation>, refs: Seq<RwReference>)
    requires
        ops.is_prefix_of(more),
        handles_resolve(ops, refs),
    ensures
        handles_resolve(more, refs),
{
    assert forall|i: int| 0 <= i < refs.len() implies match resolve(more, #[trigger] refs[i]) {
        Some(o) => o.rwc == refs[i].rwc && o.op.spec_target() == refs[i].target,
        None => false,
    } by {
        let r = refs[i];
        assert(resolve(ops, r).is_some());
        assert(more[r.rwc - 1] == ops[r.rwc - 1]);
    }
}

/// The handles to accesses stand for the operations that the accesses become.
pub proof fn lemma_new_handles_resolve(ops: Seq<Operation>, accesses: Seq<Access>)
    requires
        has_room(ops.len(), accesses.len()),
    ensures
        handles_resolve(append_numbered(ops, accesses), references(ops.len(), accesses)),
        ops.is_prefix_of(append_numbered(ops, accesses)),
{
    let all = append_numbered(ops, accesses);
    let refs = references(ops.len(), accesses);
    assert forall|i: int| 0 <= i < refs.len() implies match resolve(all, #[trigger] refs[i]) {
        Some(o) => o.rwc == refs[i].rwc && o.op.spec_target() == refs[i].target,
        None => false,
    } by {
        assert(refs[i] == reference_to(ops.len() + i, accesses[i].op));
        assert(all[ops.len() + i] == numbered(ops.len() + i, accesses[i].rw, accesses[i].op));
    }
}

/// The handles of the step of a record stand for operations of the state
/// after the record, which holds all operations that were there before.
pub proof fn lemma_step_resolves(s: StateView, steps: Seq<GethExecStep>)
    requires
        steps.len() >= 1,
    ensures
        match step_outcome(s, steps) {
            Ok((next, step)) => handles_resolve(next.ops, step.bus_mapping_instance)
                && s.ops.is_prefix_of(next.ops),
            Err(e) => true,
        },
{
    match step_outcome(s, steps) {
        Ok((next, step)) => {
            if steps[0].error.is_none() {
                let h = crate::opcode::handler_for(steps[0].op).unwrap();
                lemma_handler_appends(h, s, steps);
                lemma_new_handles_resolve(s.ops, handler_accesses(h, s, steps));
                assert(step.bus_mapping_instance =~= references(
                    s.ops.len(),
                    handler_accesses(h, s, steps),
                ));
            }
        },
        Err(e) => {},
    }
}

/// The handles of the steps of a run stand for operations of the state after
/// the run, which holds all operations that were there before.
pub proof fn lemma_run_resolves(s: StateView, trace: Seq<GethExecStep>, from: int)
    requires
        0 <= from,
    ensures
        match run_steps(s, trace, from) {
            Ok((last, steps)) => steps_resolve(last.ops, steps) && s.ops.is_prefix_of(last.ops),
            Err(at) => true,
        },
    decreases trace.len() - from,
{
    if from < trace.len() {
        lemma_step_resolves(s, trace.skip(from));
        match step_outcome(s, trace.skip(from)) {
            Ok((next, step)) => {
                lemma_run_resolves(next, trace, from + 1);
                match run_steps(next, trace, from + 1) {
                    Ok((last, rest)) => {
                        let all = seq![step] + rest;
                        lemma_handles_outlast(next.ops, last.ops, step.bus_mapping_instance);
                        assert forall|i: int| 0 <= i < all.len() implies handles_resolve(
                            last.ops,
                            (#[trigger] all[i]).bus_mapping_instance,
                        ) by {
                            if i > 0 {
                                assert(all[i] == rest[i - 1]);
                            }
                        }
                    },
                    Err(at) => {},
                }
            },
            Err(e) => {},
        }
    }
}

/// After a transaction, the handles of all steps so far stand for operations.
pub proof fn lemma_tx_resolves(b: BuilderView, tx: TxInput, trace: GethExecTrace)
    requires
        transactions_resolve(b.state.ops, b.txs),
    ensures
        match tx_outcome(b, tx, trace) {
            Ok(next) => transactions_resolve(next.state.ops, next.txs) && b.state.ops.is_prefix_of(
                next.state.ops,
            ),
            Err(e) => true,
        },
{
    match tx_outcome(b, tx, trace) {
        Ok(next) => {
            let tx_index = b.txs.len() as usize;
            let start = begun(b.state, tx_index, tx);
            lemma_new_handles_resolve(
                b.state.ops,
                frame_accesses(tx_index, crate::circuit_input_builder::root_frame(b.state.ops.len(), tx)),
            );
            lemma_run_resolves(start, trace.struct_logs@, 0);
            let run = run_steps(start, trace.struct_logs@, 0);
            let s = run->Ok_0.0;
            let steps = run->Ok_0.1;
            lemma_new_handles_resolve(
                s.ops,
                crate::circuit_input_builder::receipt_accesses(s.tx_id, trace.failed, s.logs),
            );
            assert forall|t: int| 0 <= t < next.txs.len() implies steps_resolve(
                next.state.ops,
                (#[trigger] next.txs[t]).steps,
            ) by {
                let these = next.txs[t].steps;
                assert forall|i: int| 0 <= i < these.len() implies handles_resolve(
                    next.state.ops,
                    (#[trigger] these[i]).bus_mapping_instance,
                ) by {
                    if t < b.txs.len() {
                        assert(next.txs[t] == b.txs[t]);
                        assert(handles_resolve(b.state.ops, these[i].bus_mapping_instance));
                        lemma_handles_outlast(
                            b.state.ops,
                            next.state.ops,
                            these[i].bus_mapping_instance,
                        );
                    } else {
                        assert(these == steps);
                        lemma_handles_outlast(s.ops, next.state.ops, these[i].bus_mapping_instance);
                    }
                }
            }
        },
        Err(e) => {},
    }
}

/// After the transactions of a block, the handles of all steps stand for
/// operations.
pub proof fn lemma_block_resolves(b: BuilderView, input: Seq<(TxInput, GethExecTrace)>, from: int)
    requires
        0 <= from,
        transactions_resolve(b.state.ops, b.txs),
    ensures
        match block_outcome(b, input, from) {
            Ok(last) => transactions_resolve(last.state.ops, last.txs),
            Err(e) => true,
        },
    decreases input.len() - from,
{
    if from < input.len() {
        lemma_tx_resolves(b, input[from].0, input[from].1);
        match tx_outcome(b, input[from].0, input[from].1) {
            Ok(next) => {
                lemma_block_resolves(next, input, from + 1);
            },
            Err(e) => {},
        }
    }
}

/// In a block that was built, every handle of every step stands for an
/// operation of the block: the one with the handle's counter, which is of the
/// handle's kind.
pub proof fn lemma_handles_stand_for_operations(
    context: BlockContext,
    accounts: Seq<AccountState>,
    input: Seq<(TxInput, GethExecTrace)>,
)
    ensures
        match built_block(context, accounts, input) {
            Ok(block) => transactions_resolve(block.ops, block.txs),
            Err(e) => true,
        },
{
    lemma_block_resolves(initial_builder(context, accounts), input, 0);
}

} // verus!
