//! The handlers: what each instruction reads and writes, in the order in
//! which the machine does it.
use vstd::prelude::*;
use crate::opcode::Handler;
use crate::operation::{Op, StackAddress, RW};
use crate::state::{
    has_room, lemma_accesses_compose, lemma_references_compose, stack_access, with_accesses,
    with_frame, with_references, Access, CircuitInputState, ExecStep, StateView,
};
use crate::trace::{address_of_nth, Error, GethExecStep, Stack, STACK_LIMIT};
use crate::word::Word;

pub mod calls;
pub mod context;
pub mod dup_swap;
pub mod halt;
pub mod jumpi;
pub mod logs;
pub mod memory;
pub mod stack_only;
pub mod storage;
pub mod transient;

verus! {

/// The reads of the `count` topmost words of `stack`, from the top down, by
/// the frame `call_id`.
pub open spec fn stack_reads(call_id: usize, stack: Seq<Word>, count: nat) -> Seq<Access> {
    Seq::new(
        count,
        |i: int| stack_access(call_id, RW::READ, address_of_nth(stack.len(), i as nat), stack[i]),
    )
}

/// Whether the topmost `pops` words of `stack` cannot be read by the frame at
/// work as the first of `total` accesses: there is no frame, the stack is
/// larger than the machine's or holds too few words, or the container cannot
/// number so many operations.
pub open spec fn cannot_read(s: StateView, stack: Seq<Word>, pops: nat, total: nat) -> bool {
    ||| s.frames.len() == 0
    ||| stack.len() > STACK_LIMIT
    ||| stack.len() < pops
    ||| !has_room(s.ops.len(), total)
}

/// Whether the topmost `pops` words of `stack` can be read by the frame at
/// work as the first of `total` accesses.
pub fn can_read(state: &CircuitInputState, stack: &Stack, pops: usize, total: usize) -> (r: bool)
    ensures
        r == !cannot_read(state@, stack@, pops as nat, total as nat),
{
    state.frames.len() > 0 && stack.len() <= STACK_LIMIT && stack.len() >= pops && state.room_for(
        total,
    )
}

/// Reads the `count` topmost words of `stack`, from the top down.
pub fn push_stack_reads(
    state: &mut CircuitInputState,
    exec_step: &mut ExecStep,
    stack: &Stack,
    count: usize,
)
    requires
        !cannot_read(old(state)@, stack@, count as nat, count as nat),
    ensures
        final(state)@ == with_accesses(
            old(state)@,
            stack_reads(old(state)@.frames.last().call_id, stack@, count as nat),
        ),
        final(exec_step)@ == with_references(
            old(exec_step)@,
            old(state)@.ops.len(),
            stack_reads(old(state)@.frames.last().call_id, stack@, count as nat),
        ),
{
    let ghost call_id = state@.frames.last().call_id;
    let ghost s0 = state@;
    let ghost e0 = exec_step@;
    let mut i: usize = 0;
    proof {
        assert(stack_reads(call_id, stack@, 0) =~= Seq::<Access>::empty());
        assert(state@.ops =~= with_accesses(s0, Seq::<Access>::empty()).ops);
        assert(exec_step@.bus_mapping_instance =~= with_references(
            e0,
            s0.ops.len(),
            Seq::<Access>::empty(),
        ).bus_mapping_instance);
    }
    while i < count
        invariant
            i <= count,
            !cannot_read(s0, stack@, count as nat, count as nat),
            call_id == s0.frames.last().call_id,
            state@ == with_accesses(s0, stack_reads(call_id, stack@, i as nat)),
            exec_step@ == with_references(e0, s0.ops.len(), stack_reads(call_id, stack@, i as nat)),
        decreases count - i,
    {
        let address: StackAddress = stack.nth_last_filled(i);
        let value: Word = stack.0[i];
        let ghost before = stack_reads(call_id, stack@, i as nat);
        let ghost one = seq![stack_access(call_id, RW::READ, address, value)];
        state.push_stack_op(exec_step, RW::READ, address, value);
        proof {
            lemma_accesses_compose(s0, before, one);
            lemma_references_compose(e0, s0.ops.len(), before, one);
            assert(before + one =~= stack_reads(call_id, stack@, (i + 1) as nat));
        }
        i = i + 1;
    }
}

/// The reads of the `count` topmost words of `stack`, from the top down, by
/// the frame `call_id`.
pub fn read_accesses(call_id: usize, stack: &Stack, count: usize) -> (accesses: Vec<Access>)
    requires
        count <= stack@.len() <= STACK_LIMIT,
    ensures
        accesses@ == stack_reads(call_id, stack@, count as nat),
{
    let mut accesses: Vec<Access> = Vec::new();
    let mut i: usize = 0;
    proof {
        assert(accesses@ =~= stack_reads(call_id, stack@, 0));
    }
    while i < count
        invariant
            i <= count <= stack@.len() <= STACK_LIMIT,
            accesses@ == stack_reads(call_id, stack@, i as nat),
        decreases count - i,
    {
        let address: StackAddress = stack.nth_last_filled(i);
        accesses.push(Access { rw: RW::READ, op: Op::Stack { call_id, address, value: stack.0[i] } });
        proof {
            assert(accesses@ =~= stack_reads(call_id, stack@, (i + 1) as nat));
        }
        i = i + 1;
    }
    accesses
}

/// Whether a snapshot of `len` bytes of memory lacks a byte of the range of
/// `size` bytes from `offset` on. An empty range lacks none, wherever it is.
pub open spec fn range_missing(offset: Word, size: Word, len: nat) -> bool {
    size.value() > 0 && offset.value() + size.value() > len
}

/// The place and the length of the range of `size` bytes from `offset` on,
/// where a snapshot of `len` bytes holds all of it. An empty range is given
/// as the one at 0.
pub fn range_in(offset: Word, size: Word, len: usize) -> (r: Option<(usize, usize)>)
    ensures
        r.is_none() == range_missing(offset, size, len as nat),
        r.is_some() ==> r.unwrap().1 == size.value() && r.unwrap().0 + r.unwrap().1 <= len,
        r.is_some() && size.value() > 0 ==> r.unwrap().0 == offset.value(),
        r.is_some() && size.value() == 0 ==> r.unwrap().0 == 0,
{
    let count: u64 = match size.as_u64() {
        Some(n) => n,
        None => {
            return None;
        },
    };
    if count == 0 {
        return Some((0, 0));
    }
    if count > len as u64 {
        return None;
    }
    match offset.as_u64() {
        Some(at) => if at <= (len as u64) - count {
            Some((at as usize, count as usize))
        } else {
            None
        },
        None => None,
    }
}

/// The writes of `results`, which become the topmost words of a stack that
/// then holds `len_after` words, from the top down, by the frame `call_id`.
pub open spec fn stack_writes(call_id: usize, len_after: nat, results: Seq<Word>) -> Seq<Access> {
    Seq::new(
        results.len(),
        |j: int| stack_access(call_id, RW::WRITE, address_of_nth(len_after, j as nat), results[j]),
    )
}

/// Writes the `count` topmost words of `after` as the topmost words of a
/// stack that then holds `len_after` words, from the top down.
pub fn push_stack_writes(
    state: &mut CircuitInputState,
    exec_step: &mut ExecStep,
    len_after: usize,
    after: &Stack,
    count: usize,
)
    requires
        old(state)@.frames.len() > 0,
        count <= len_after <= STACK_LIMIT,
        count <= after@.len(),
        has_room(old(state)@.ops.len(), count as nat),
    ensures
        final(state)@ == with_accesses(
            old(state)@,
            stack_writes(
                old(state)@.frames.last().call_id,
                len_after as nat,
                after@.take(count as int),
            ),
        ),
        final(exec_step)@ == with_references(
            old(exec_step)@,
            old(state)@.ops.len(),
            stack_writes(
                old(state)@.frames.last().call_id,
                len_after as nat,
                after@.take(count as int),
            ),
        ),
{
    let ghost call_id = state@.frames.last().call_id;
    let ghost s0 = state@;
    let ghost e0 = exec_step@;
    let mut j: usize = 0;
    proof {
        let none = stack_writes(call_id, len_after as nat, after@.take(0));
        assert(none =~= Seq::<Access>::empty());
        assert(state@.ops =~= with_accesses(s0, none).ops);
        assert(exec_step@.bus_mapping_instance =~= with_references(
            e0,
            s0.ops.len(),
            none,
        ).bus_mapping_instance);
    }
    while j < count
        invariant
            j <= count <= len_after <= STACK_LIMIT,
            count <= after@.len(),
            s0.frames.len() > 0,
            has_room(s0.ops.len(), count as nat),
            call_id == s0.frames.last().call_id,
            state@ == with_accesses(
                s0,
                stack_writes(call_id, len_after as nat, after@.take(j as int)),
            ),
            exec_step@ == with_references(
                e0,
                s0.ops.len(),
                stack_writes(call_id, len_after as nat, after@.take(j as int)),
            ),
        decreases count - j,
    {
        let address: StackAddress = StackAddress(STACK_LIMIT - len_after + j);
        let value: Word = after.0[j];
        let ghost before = stack_writes(call_id, len_after as nat, after@.take(j as int));
        let ghost one = seq![stack_access(call_id, RW::WRITE, address, value)];
        state.push_stack_op(exec_step, RW::WRITE, address, value);
        proof {
            lemma_accesses_compose(s0, before, one);
            lemma_references_compose(e0, s0.ops.len(), before, one);
            assert(before + one =~= stack_writes(
                call_id,
                len_after as nat,
                after@.take(j + 1),
            ));
        }
        j = j + 1;
    }
}

/// The place in `steps`, from `from` on, of the first record that is not
/// deeper than `depth`: where a frame of that depth goes on, or where the
/// frame that called it does.
pub open spec fn resume_from(steps: Seq<GethExecStep>, depth: u32, from: int) -> Option<int>
    decreases steps.len() - from,
{
    if from < 0 || from >= steps.len() {
        None
    } else if steps[from].depth <= depth {
        Some(from)
    } else {
        resume_from(steps, depth, from + 1)
    }
}

/// The place in `steps` of the record at which the frame of `steps[0]` goes
/// on after that instruction; none where the frame ends with it or the trace
/// does.
pub open spec fn resumes_at(steps: Seq<GethExecStep>) -> Option<int> {
    match resume_from(steps, steps[0].depth, 1) {
        Some(j) => if steps[j].depth == steps[0].depth {
            Some(j)
        } else {
            None
        },
        None => None,
    }
}

/// The place in `steps` of the record at which the frame of `steps[0]` goes
/// on after that instruction.
pub fn find_resume(steps: &[GethExecStep]) -> (found: Option<usize>)
    requires
        steps@.len() >= 1,
    ensures
        match found {
            Some(j) => resumes_at(steps@) == Some(j as int) && 1 <= j < steps@.len(),
            None => resumes_at(steps@).is_none(),
        },
{
    let depth: u32 = steps[0].depth;
    let n: usize = steps.len();
    let mut j: usize = 1;
    while j < n
        invariant
            1 <= j <= n,
            n == steps@.len(),
            depth == steps@[0].depth,
            resume_from(steps@, depth, 1) == resume_from(steps@, depth, j as int),
        decreases n - j,
    {
        if steps[j].depth <= depth {
            if steps[j].depth == depth {
                return Some(j);
            } else {
                return None;
            }
        }
        j = j + 1;
    }
    None
}

/// Whether the instruction at `steps[0]`, whose handler is `h`, cannot be
/// recorded in the state `s`.
pub open spec fn handler_fails(h: Handler, s: StateView, steps: Seq<GethExecStep>) -> bool {
    match h {
        Handler::StackOnly { pops, pushes } => stack_only::stack_only_fails(
            s,
            steps,
            pops as nat,
            pushes as nat,
        ),
        Handler::Jumpi => cannot_read(s, steps[0].stack@, 2, 2),
        Handler::Dup { depth } => dup_swap::dup_fails(s, steps[0], depth as nat),
        Handler::Swap { depth } => dup_swap::swap_fails(s, steps[0], depth as nat),
        Handler::Sload => storage::sload_fails(s, steps[0]),
        Handler::Sstore => storage::sstore_fails(s, steps[0]),
        Handler::Halt { pops } => cannot_read(s, steps[0].stack@, pops as nat, pops as nat),
        Handler::Tload => cannot_read(s, steps[0].stack@, 1, 3),
        Handler::Tstore => cannot_read(s, steps[0].stack@, 2, 3),
        Handler::Mload => memory::mload_fails(s, steps[0]),
        Handler::Mstore => memory::mstore_fails(s, steps[0]),
        Handler::Mstore8 => memory::mstore8_fails(s, steps[0]),
        Handler::Log { topics } => logs::log_fails(s, steps[0], topics as nat),
        Handler::Call { kind } => calls::call_fails(kind, s, steps),
        Handler::Create { salted } => calls::create_fails(salted, s, steps),
        Handler::Return => halt::return_fails(s, steps[0]),
        Handler::Keccak => memory::keccak_fails(s, steps),
        Handler::CopyToMemory { pops, dest, size } => memory::copy_fails(
            s,
            steps,
            pops as nat,
            dest as nat,
            size as nat,
        ),
        Handler::Mcopy => memory::mcopy_fails(s, steps[0]),
        Handler::AccountRead { pops, .. } => context::account_read_fails(s, steps, pops as nat),
        Handler::ContextRead { .. } => context::context_read_fails(s, steps),
    }
}

/// The accesses of the instruction at `steps[0]`, whose handler is `h`, in
/// the order in which they are made.
pub open spec fn handler_accesses(h: Handler, s: StateView, steps: Seq<GethExecStep>) -> Seq<
    Access,
> {
    match h {
        Handler::StackOnly { pops, pushes } => stack_only::stack_only_accesses(
            s,
            steps,
            pops as nat,
            pushes as nat,
        ),
        Handler::Jumpi => jumpi::jumpi_accesses(s, steps[0]),
        Handler::Dup { depth } => dup_swap::dup_accesses(s, steps[0], depth as nat),
        Handler::Swap { depth } => dup_swap::swap_accesses(s, steps[0], depth as nat),
        Handler::Sload => storage::sload_accesses(s, steps[0]),
        Handler::Sstore => storage::sstore_accesses(s, steps[0]),
        Handler::Halt { pops } => halt::halt_accesses(s, steps[0], pops as nat),
        Handler::Tload => transient::tload_accesses(s, steps[0]),
        Handler::Tstore => transient::tstore_accesses(s, steps[0]),
        Handler::Mload => memory::mload_accesses(s, steps[0]),
        Handler::Mstore => memory::mstore_accesses(s, steps[0]),
        Handler::Mstore8 => memory::mstore8_accesses(s, steps[0]),
        Handler::Log { topics } => logs::log_accesses(s, steps[0], topics as nat),
        Handler::Call { kind } => calls::call_accesses(kind, s, steps),
        Handler::Create { salted } => calls::create_accesses(salted, s, steps),
        Handler::Return => halt::return_accesses(s, steps[0]),
        Handler::Keccak => memory::keccak_accesses(s, steps),
        Handler::CopyToMemory { pops, dest, size } => memory::copy_accesses(
            s,
            steps,
            pops as nat,
            dest as nat,
            size as nat,
        ),
        Handler::Mcopy => memory::mcopy_accesses(s, steps[0]),
        Handler::AccountRead { pops, field } => context::account_read_accesses(
            s,
            steps,
            pops as nat,
            field,
        ),
        Handler::ContextRead { field } => context::context_read_accesses(s, steps, field),
    }
}

/// The state after the instruction at `steps[0]`, whose handler is `h`, was
/// recorded in the state `s`.
pub open spec fn handler_state(h: Handler, s: StateView, steps: Seq<GethExecStep>) -> StateView {
    let made = with_accesses(s, handler_accesses(h, s, steps));
    match h {
        Handler::Sload => storage::with_touched(made, steps[0].stack@[0]),
        Handler::Sstore => storage::with_touched(made, steps[0].stack@[0]),
        Handler::Halt { .. } => halt::without_frame(made),
        Handler::Return => halt::without_frame(made),
        Handler::Tstore => transient::with_store(made, steps[0]),
        Handler::Log { .. } => logs::with_log(made),
        Handler::Call { kind } => if calls::enters(steps) {
            with_frame(made, calls::called_frame(kind, s, steps))
        } else {
            made
        },
        Handler::Create { .. } => if calls::enters(steps) {
            with_frame(made, calls::created_frame(s, steps))
        } else {
            made
        },
        _ => made,
    }
}

/// Records the instruction at `steps[0]` with its handler `h`. The later
/// records are there to look ahead. Where the trace lacks what the
/// instruction needs it is malformed, and then nothing is recorded.
pub fn gen_associated_ops(
    h: Handler,
    state: &mut CircuitInputState,
    exec_step: &mut ExecStep,
    steps: &[GethExecStep],
) -> (r: Result<(), Error>)
    requires
        steps@.len() >= 1,
    ensures
        r.is_err() == handler_fails(h, old(state)@, steps@),
        r.is_err() ==> r == Err::<(), Error>(Error::TraceMalformed) && final(state)@ == old(
            state,
        )@ && final(exec_step)@ == old(exec_step)@,
        r.is_ok() ==> final(state)@ == handler_state(h, old(state)@, steps@),
        r.is_ok() ==> final(exec_step)@ == with_references(
            old(exec_step)@,
            old(state)@.ops.len(),
            handler_accesses(h, old(state)@, steps@),
        ),
{
    match h {
        Handler::StackOnly { pops, pushes } => stack_only::StackOnly::gen_associated_ops(
            state,
            exec_step,
            steps,
            pops,
            pushes,
        ),
        Handler::Jumpi => jumpi::Jumpi::gen_associated_ops(state, exec_step, steps),
        Handler::Dup { depth } => dup_swap::Dup::gen_associated_ops(state, exec_step, steps, depth),
        Handler::Swap { depth } => dup_swap::Swap::gen_associated_ops(
            state,
            exec_step,
            steps,
            depth,
        ),
        Handler::Sload => storage::Sload::gen_associated_ops(state, exec_step, steps),
        Handler::Sstore => storage::Sstore::gen_associated_ops(state, exec_step, steps),
        Handler::Halt { pops } => halt::Halt::gen_associated_ops(state, exec_step, steps, pops),
        Handler::Tload => transient::Tload::gen_associated_ops(state, exec_step, steps),
        Handler::Tstore => transient::Tstore::gen_associated_ops(state, exec_step, steps),
        Handler::Mload => memory::Mload::gen_associated_ops(state, exec_step, steps),
        Handler::Mstore => memory::Mstore::gen_associated_ops(state, exec_step, steps),
        Handler::Mstore8 => memory::Mstore8::gen_associated_ops(state, exec_step, steps),
        Handler::Log { topics } => logs::Log::gen_associated_ops(state, exec_step, steps, topics),
        Handler::Call { kind } => calls::Call::gen_associated_ops(state, exec_step, steps, kind),
        Handler::Create { salted } => calls::Create::gen_associated_ops(
            state,
            exec_step,
            steps,
            salted,
        ),
        Handler::Return => halt::Return::gen_associated_ops(state, exec_step, steps),
        Handler::Keccak => memory::Keccak::gen_associated_ops(state, exec_step, steps),
        Handler::CopyToMemory { pops, dest, size } => memory::CopyToMemory::gen_associated_ops(
            state,
            exec_step,
            steps,
            pops,
            dest,
            size,
        ),
        Handler::Mcopy => memory::Mcopy::gen_associated_ops(state, exec_step, steps),
        Handler::AccountRead { pops, field } => context::AccountRead::gen_associated_ops(
            state,
            exec_step,
            steps,
            pops,
            field,
        ),
        Handler::ContextRead { field } => context::ContextRead::gen_associated_ops(
            state,
            exec_step,
            steps,
            field,
        ),
    }
}

} // verus!
