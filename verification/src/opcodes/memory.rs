//! The instructions that load from and store to memory.
use vstd::prelude::*;
use vstd::slice::slice_subrange;
use crate::opcodes::stack_only::{cannot_write, results};
use crate::opcodes::{
    can_read, cannot_read, find_resume, range_in, range_missing, read_accesses, resumes_at,
    stack_reads, stack_writes,
};
use crate::operation::{Op, StackAddress, RW};
use crate::state::{
    stack_access, with_accesses, with_references, Access, CircuitInputState, ExecStep, StateView,
};
use crate::trace::{address_of_nth, Error, GethExecStep, STACK_LIMIT};
use crate::word::{be_byte, be_value, word_of_value, Word};

verus! {

/// The handler of the load of a word from memory.
#[derive(Debug, Copy, Clone)]
pub struct Mload;

/// The handler of the store of a word to memory.
#[derive(Debug, Copy, Clone)]
pub struct Mstore;

/// The handler of the store of a byte to memory.
#[derive(Debug, Copy, Clone)]
pub struct Mstore8;

/// An access to the byte at `address` of the memory of the frame `call_id`.
pub open spec fn memory_access(call_id: usize, rw: RW, address: u64, value: u8) -> Access {
    Access { rw, op: Op::Memory { call_id, address, value } }
}

/// Whether the load at `step` cannot be recorded: the place cannot be read
/// from the stack, or the snapshot of memory lacks one of the 32 bytes.
pub open spec fn mload_fails(s: StateView, step: GethExecStep) -> bool {
    cannot_read(s, step.stack@, 1, 34) || step.stack@[0].value() + 32 > step.memory@.len()
}

/// The reads of the first `count` bytes of memory from the place `offset` on.
pub open spec fn memory_reads(call_id: usize, memory: Seq<u8>, offset: nat, count: nat) -> Seq<
    Access,
> {
    Seq::new(
        count,
        |k: int| memory_access(call_id, RW::READ, (offset + k) as u64, memory[offset + k]),
    )
}

/// The word that the 32 bytes of `memory` from the place `offset` on stand
/// for, the most significant byte first.
pub open spec fn loaded_word(memory: Seq<u8>, offset: nat) -> Word {
    word_of_value(be_value(memory.subrange(offset as int, (offset + 32) as int)))
}

/// What the load does: it reads the place from the stack, reads the 32 bytes
/// from there on, and writes the word that they stand for where the place
/// was.
pub open spec fn mload_accesses(s: StateView, step: GethExecStep) -> Seq<Access> {
    let call_id = s.frames.last().call_id;
    let offset = step.stack@[0].value();
    let top = address_of_nth(step.stack@.len(), 0);
    seq![stack_access(call_id, RW::READ, top, step.stack@[0])] + memory_reads(
        call_id,
        step.memory@,
        offset,
        32,
    ) + seq![stack_access(call_id, RW::WRITE, top, loaded_word(step.memory@, offset))]
}

/// Whether the store of a word at `step` cannot be recorded: the place and
/// the word cannot be read from the stack, or one of the 32 bytes has no
/// address.
pub open spec fn mstore_fails(s: StateView, step: GethExecStep) -> bool {
    cannot_read(s, step.stack@, 2, 34) || step.stack@[0].value() + 32 > u64::MAX
}

/// The writes of the first `count` of the 32 bytes of `word` from the place
/// `offset` on, the most significant byte first.
pub open spec fn memory_writes(call_id: usize, word: Word, offset: nat, count: nat) -> Seq<Access> {
    Seq::new(
        count,
        |k: int|
            memory_access(call_id, RW::WRITE, (offset + k) as u64, be_byte(word.value(), k as nat)),
    )
}

/// What the store of a word does: it reads the place and the word from the
/// stack and writes the 32 bytes of the word from the place on.
pub open spec fn mstore_accesses(s: StateView, step: GethExecStep) -> Seq<Access> {
    let call_id = s.frames.last().call_id;
    seq![
        stack_access(call_id, RW::READ, address_of_nth(step.stack@.len(), 0), step.stack@[0]),
        stack_access(call_id, RW::READ, address_of_nth(step.stack@.len(), 1), step.stack@[1]),
    ] + memory_writes(call_id, step.stack@[1], step.stack@[0].value(), 32)
}

/// Whether the store of a byte at `step` cannot be recorded: the place and
/// the word cannot be read from the stack, or the byte has no address.
pub open spec fn mstore8_fails(s: StateView, step: GethExecStep) -> bool {
    cannot_read(s, step.stack@, 2, 3) || step.stack@[0].value() > u64::MAX
}

/// What the store of a byte does: it reads the place and the word from the
/// stack and writes the lowest byte of the word to the place.
pub open spec fn mstore8_accesses(s: StateView, step: GethExecStep) -> Seq<Access> {
    let call_id = s.frames.last().call_id;
    seq![
        stack_access(call_id, RW::READ, address_of_nth(step.stack@.len(), 0), step.stack@[0]),
        stack_access(call_id, RW::READ, address_of_nth(step.stack@.len(), 1), step.stack@[1]),
        memory_access(
            call_id,
            RW::WRITE,
            step.stack@[0].value() as u64,
            (step.stack@[1].l0 & 0xff) as u8,
        ),
    ]
}

impl Mload {
    /// Records the load at `steps[0]`. Where the stack is empty or the
    /// snapshot of memory lacks a byte, the trace is malformed and nothing is
    /// recorded.
    pub fn gen_associated_ops(
        state: &mut CircuitInputState,
        exec_step: &mut ExecStep,
        steps: &[GethExecStep],
    ) -> (r: Result<(), Error>)
        requires
            steps@.len() >= 1,
        ensures
            r.is_err() == mload_fails(old(state)@, steps@[0]),
            r.is_err() ==> r == Err::<(), Error>(Error::TraceMalformed) && final(state)@ == old(
                state,
            )@ && final(exec_step)@ == old(exec_step)@,
            r.is_ok() ==> final(state)@ == with_accesses(
                old(state)@,
                mload_accesses(old(state)@, steps@[0]),
            ),
            r.is_ok() ==> final(exec_step)@ == with_references(
                old(exec_step)@,
                old(state)@.ops.len(),
                mload_accesses(old(state)@, steps@[0]),
            ),
    {
        let step = &steps[0];
        if !can_read(state, &step.stack, 1, 34) {
            return Err(Error::TraceMalformed);
        }
        let memory_len: usize = step.memory.len();
        let offset: usize = match step.stack.0[0].as_u64() {
            Some(v) => if memory_len >= 32 && v <= (memory_len - 32) as u64 {
                v as usize
            } else {
                return Err(Error::TraceMalformed);
            },
            None => {
                return Err(Error::TraceMalformed);
            },
        };
        let call_id: usize = state.frames[state.frames.len() - 1].call_id;
        let top: StackAddress = step.stack.nth_last_filled(0);
        let mut accesses: Vec<Access> = Vec::new();
        accesses.push(
            Access { rw: RW::READ, op: Op::Stack { call_id, address: top, value: step.stack.0[0] } },
        );
        let ghost head = accesses@;
        let mut k: usize = 0;
        proof {
            assert(accesses@ =~= head + memory_reads(call_id, step.memory@, offset as nat, 0));
        }
        while k < 32
            invariant
                k <= 32,
                memory_len == step.memory@.len(),
                offset + 32 <= memory_len,
                accesses@ == head + memory_reads(call_id, step.memory@, offset as nat, k as nat),
            decreases 32 - k,
        {
            accesses.push(
                Access {
                    rw: RW::READ,
                    op: Op::Memory {
                        call_id,
                        address: (offset + k) as u64,
                        value: step.memory[offset + k],
                    },
                },
            );
            proof {
                assert(accesses@ =~= head + memory_reads(
                    call_id,
                    step.memory@,
                    offset as nat,
                    (k + 1) as nat,
                ));
            }
            k = k + 1;
        }
        let bytes = slice_subrange(step.memory.as_slice(), offset, offset + 32);
        let word: Word = Word::from_big_endian(bytes);
        accesses.push(Access { rw: RW::WRITE, op: Op::Stack { call_id, address: top, value: word } });
        proof {
            assert(accesses@ =~= mload_accesses(state@, *step));
        }
        state.push_accesses(exec_step, &accesses);
        Ok(())
    }
}

impl Mstore {
    /// Records the store of a word at `steps[0]`. Where the stack lacks a
    /// word or the place is beyond all addresses, the trace is malformed and
    /// nothing is recorded.
    pub fn gen_associated_ops(
        state: &mut CircuitInputState,
        exec_step: &mut ExecStep,
        steps: &[GethExecStep],
    ) -> (r: Result<(), Error>)
        requires
            steps@.len() >= 1,
        ensures
            r.is_err() == mstore_fails(old(state)@, steps@[0]),
            r.is_err() ==> r == Err::<(), Error>(Error::TraceMalformed) && final(state)@ == old(
                state,
            )@ && final(exec_step)@ == old(exec_step)@,
            r.is_ok() ==> final(state)@ == with_accesses(
                old(state)@,
                mstore_accesses(old(state)@, steps@[0]),
            ),
            r.is_ok() ==> final(exec_step)@ == with_references(
                old(exec_step)@,
                old(state)@.ops.len(),
                mstore_accesses(old(state)@, steps@[0]),
            ),
    {
        let step = &steps[0];
        if !can_read(state, &step.stack, 2, 34) {
            return Err(Error::TraceMalformed);
        }
        let offset: u64 = match step.stack.0[0].as_u64() {
            Some(v) => if v <= u64::MAX - 32 {
                v
            } else {
                return Err(Error::TraceMalformed);
            },
            None => {
                return Err(Error::TraceMalformed);
            },
        };
        let call_id: usize = state.frames[state.frames.len() - 1].call_id;
        let word: Word = step.stack.0[1];
        let bytes: Vec<u8> = word.to_big_endian();
        let mut accesses: Vec<Access> = Vec::new();
        accesses.push(
            Access {
                rw: RW::READ,
                op: Op::Stack {
                    call_id,
                    address: step.stack.nth_last_filled(0),
                    value: step.stack.0[0],
                },
            },
        );
        accesses.push(
            Access {
                rw: RW::READ,
                op: Op::Stack { call_id, address: step.stack.nth_last_filled(1), value: word },
            },
        );
        let ghost head = accesses@;
        let mut k: usize = 0;
        proof {
            assert(accesses@ =~= head + memory_writes(call_id, word, offset as nat, 0));
        }
        while k < 32
            invariant
                k <= 32,
                offset + 32 <= u64::MAX,
                bytes@.len() == 32,
                forall|j: int| 0 <= j < 32 ==> bytes@[j] == be_byte(word.value(), j as nat),
                accesses@ == head + memory_writes(call_id, word, offset as nat, k as nat),
            decreases 32 - k,
        {
            accesses.push(
                Access {
                    rw: RW::WRITE,
                    op: Op::Memory { call_id, address: offset + k as u64, value: bytes[k] },
                },
            );
            proof {
                assert(accesses@ =~= head + memory_writes(
                    call_id,
                    word,
                    offset as nat,
                    (k + 1) as nat,
                ));
            }
            k = k + 1;
        }
        proof {
            assert(accesses@ =~= mstore_accesses(state@, *step));
        }
        state.push_accesses(exec_step, &accesses);
        Ok(())
    }
}

impl Mstore8 {
    /// Records the store of a byte at `steps[0]`. Where the stack lacks a
    /// word or the place is beyond all addresses, the trace is malformed and
    /// nothing is recorded.
    pub fn gen_associated_ops(
        state: &mut CircuitInputState,
        exec_step: &mut ExecStep,
        steps: &[GethExecStep],
    ) -> (r: Result<(), Error>)
        requires
            steps@.len() >= 1,
        ensures
            r.is_err() == mstore8_fails(old(state)@, steps@[0]),
            r.is_err() ==> r == Err::<(), Error>(Error::TraceMalformed) && final(state)@ == old(
                state,
            )@ && final(exec_step)@ == old(exec_step)@,
            r.is_ok() ==> final(state)@ == with_accesses(
                old(state)@,
                mstore8_accesses(old(state)@, steps@[0]),
            ),
            r.is_ok() ==> final(exec_step)@ == with_references(
                old(exec_step)@,
                old(state)@.ops.len(),
                mstore8_accesses(old(state)@, steps@[0]),
            ),
    {
        let step = &steps[0];
        if !can_read(state, &step.stack, 2, 3) {
            return Err(Error::TraceMalformed);
        }
        let offset: u64 = match step.stack.0[0].as_u64() {
            Some(v) => v,
            None => {
                return Err(Error::TraceMalformed);
            },
        };
        let call_id: usize = state.frames[state.frames.len() - 1].call_id;
        let word: Word = step.stack.0[1];
        let byte: u8 = (word.l0 & 0xff) as u8;
        let mut accesses: Vec<Access> = Vec::new();
        accesses.push(
            Access {
                rw: RW::READ,
                op: Op::Stack {
                    call_id,
                    address: step.stack.nth_last_filled(0),
                    value: step.stack.0[0],
                },
            },
        );
        accesses.push(
            Access {
                rw: RW::READ,
                op: Op::Stack { call_id, address: step.stack.nth_last_filled(1), value: word },
            },
        );
        accesses.push(Access { rw: RW::WRITE, op: Op::Memory { call_id, address: offset, value: byte } });
        proof {
            assert(accesses@ =~= mstore8_accesses(state@, *step));
        }
        state.push_accesses(exec_step, &accesses);
        Ok(())
    }
}

/// The handler of the hash of a range of memory.
#[derive(Debug, Copy, Clone)]
pub struct Keccak;

/// The handler of the instructions that copy into memory what is not in it:
/// the data of the call, code or the data that a call returned.
#[derive(Debug, Copy, Clone)]
pub struct CopyToMemory;

/// The handler of the copy from memory to memory.
#[derive(Debug, Copy, Clone)]
pub struct Mcopy;

/// The writes of `count` bytes from the place `to` on: the bytes of `source`
/// from the place `from` on.
pub open spec fn memory_copies(
    call_id: usize,
    source: Seq<u8>,
    from: nat,
    to: nat,
    count: nat,
) -> Seq<Access> {
    Seq::new(count, |k: int| memory_access(call_id, RW::WRITE, (to + k) as u64, source[from + k]))
}

/// The reads of `count` bytes of `memory` from the place `offset` on.
pub fn read_range(call_id: usize, memory: &Vec<u8>, offset: usize, count: usize) -> (accesses: Vec<
    Access,
>)
    requires
        offset + count <= memory@.len(),
    ensures
        accesses@ == memory_reads(call_id, memory@, offset as nat, count as nat),
{
    let mut accesses: Vec<Access> = Vec::new();
    let len: usize = memory.len();
    let mut k: usize = 0;
    proof {
        assert(accesses@ =~= memory_reads(call_id, memory@, offset as nat, 0));
    }
    while k < count
        invariant
            k <= count,
            len == memory@.len(),
            offset + count <= len,
            accesses@ == memory_reads(call_id, memory@, offset as nat, k as nat),
        decreases count - k,
    {
        accesses.push(
            Access {
                rw: RW::READ,
                op: Op::Memory { call_id, address: (offset + k) as u64, value: memory[offset + k] },
            },
        );
        proof {
            assert(accesses@ =~= memory_reads(call_id, memory@, offset as nat, (k + 1) as nat));
        }
        k = k + 1;
    }
    accesses
}

/// The writes of `count` bytes from the place `to` on: the bytes of `source`
/// from the place `from` on.
pub fn write_range(call_id: usize, source: &Vec<u8>, from: usize, to: u64, count: usize) -> (accesses:
    Vec<Access>)
    requires
        from + count <= source@.len(),
        to + count <= u64::MAX,
    ensures
        accesses@ == memory_copies(call_id, source@, from as nat, to as nat, count as nat),
{
    let mut accesses: Vec<Access> = Vec::new();
    let len: usize = source.len();
    let mut k: usize = 0;
    proof {
        assert(accesses@ =~= memory_copies(call_id, source@, from as nat, to as nat, 0));
    }
    while k < count
        invariant
            k <= count,
            len == source@.len(),
            from + count <= len,
            to + count <= u64::MAX,
            accesses@ == memory_copies(call_id, source@, from as nat, to as nat, k as nat),
        decreases count - k,
    {
        accesses.push(
            Access {
                rw: RW::WRITE,
                op: Op::Memory { call_id, address: to + k as u64, value: source[from + k] },
            },
        );
        proof {
            assert(accesses@ =~= memory_copies(
                call_id,
                source@,
                from as nat,
                to as nat,
                (k + 1) as nat,
            ));
        }
        k = k + 1;
    }
    accesses
}

/// Whether the hash at `steps[0]` cannot be recorded: the place and the
/// length of the range cannot be read from the stack, the snapshot of memory
/// lacks a byte of the range, or no later record of the frame shows the
/// hash.
pub open spec fn keccak_fails(s: StateView, steps: Seq<GethExecStep>) -> bool {
    ||| cannot_read(s, steps[0].stack@, 2, 3 + steps[0].stack@[1].value())
    ||| range_missing(steps[0].stack@[0], steps[0].stack@[1], steps[0].memory@.len())
    ||| cannot_write(steps, 2, 1)
}

/// What the hash does: it reads the place and the length of the range from
/// the stack, reads the bytes of the range, and writes the hash, which the
/// next record of the frame shows.
pub open spec fn keccak_accesses(s: StateView, steps: Seq<GethExecStep>) -> Seq<Access> {
    let call_id = s.frames.last().call_id;
    let step = steps[0];
    stack_reads(call_id, step.stack@, 2) + memory_reads(
        call_id,
        step.memory@,
        step.stack@[0].value(),
        step.stack@[1].value(),
    ) + stack_writes(call_id, (step.stack@.len() - 1) as nat, results(steps, 1))
}

/// Whether the copy into memory at `steps[0]` cannot be recorded. The
/// instruction takes `pops` words; the place to copy to is the word `dest` of
/// the stack and the length the word `size`. The copy cannot be recorded
/// where the words cannot be read or where bytes are copied and no later
/// record of the frame shows them in memory.
pub open spec fn copy_fails(
    s: StateView,
    steps: Seq<GethExecStep>,
    pops: nat,
    dest: nat,
    size: nat,
) -> bool {
    ||| dest >= pops
    ||| size >= pops
    ||| cannot_read(s, steps[0].stack@, pops, pops + steps[0].stack@[size as int].value())
    ||| steps[0].stack@[size as int].value() > 0 && match resumes_at(steps) {
        Some(j) => range_missing(
            steps[0].stack@[dest as int],
            steps[0].stack@[size as int],
            steps[j].memory@.len(),
        ),
        None => true,
    }
}

/// The memory in which the copy at `steps[0]` shows: that of the next record
/// of the frame.
pub open spec fn memory_after(steps: Seq<GethExecStep>) -> Seq<u8> {
    steps[resumes_at(steps).unwrap()].memory@
}

/// What the copy into memory does: it reads its words from the stack and
/// writes the bytes, which the memory of the next record of the frame shows.
pub open spec fn copy_accesses(
    s: StateView,
    steps: Seq<GethExecStep>,
    pops: nat,
    dest: nat,
    size: nat,
) -> Seq<Access> {
    let call_id = s.frames.last().call_id;
    let step = steps[0];
    let to = step.stack@[dest as int].value();
    stack_reads(call_id, step.stack@, pops) + memory_copies(
        call_id,
        memory_after(steps),
        to,
        to,
        step.stack@[size as int].value(),
    )
}

/// Whether the copy from memory to memory at `step` cannot be recorded: its
/// three words cannot be read, the snapshot of memory lacks a byte to copy,
/// or a byte would go beyond all addresses.
pub open spec fn mcopy_fails(s: StateView, step: GethExecStep) -> bool {
    ||| cannot_read(s, step.stack@, 3, 3 + 2 * step.stack@[2].value())
    ||| range_missing(step.stack@[1], step.stack@[2], step.memory@.len())
    ||| step.stack@[2].value() > 0 && step.stack@[0].value() + step.stack@[2].value() > u64::MAX
}

/// What the copy from memory to memory does: it reads the place to copy to,
/// the place to copy from and the length from the stack, reads the bytes,
/// and writes them.
pub open spec fn mcopy_accesses(s: StateView, step: GethExecStep) -> Seq<Access> {
    let call_id = s.frames.last().call_id;
    let size = step.stack@[2].value();
    stack_reads(call_id, step.stack@, 3) + memory_reads(
        call_id,
        step.memory@,
        step.stack@[1].value(),
        size,
    ) + memory_copies(call_id, step.memory@, step.stack@[1].value(), step.stack@[0].value(), size)
}

impl Keccak {
    /// Records the hash at `steps[0]`. Where the trace lacks a word, a byte
    /// or the hash, it is malformed and nothing is recorded.
    pub fn gen_associated_ops(
        state: &mut CircuitInputState,
        exec_step: &mut ExecStep,
        steps: &[GethExecStep],
    ) -> (r: Result<(), Error>)
        requires
            steps@.len() >= 1,
        ensures
            r.is_err() == keccak_fails(old(state)@, steps@),
            r.is_err() ==> r == Err::<(), Error>(Error::TraceMalformed) && final(state)@ == old(
                state,
            )@ && final(exec_step)@ == old(exec_step)@,
            r.is_ok() ==> final(state)@ == with_accesses(
                old(state)@,
                keccak_accesses(old(state)@, steps@),
            ),
            r.is_ok() ==> final(exec_step)@ == with_references(
                old(exec_step)@,
                old(state)@.ops.len(),
                keccak_accesses(old(state)@, steps@),
            ),
    {
        let step = &steps[0];
        if !can_read(state, &step.stack, 2, 0) {
            return Err(Error::TraceMalformed);
        }
        let (offset, size) = match range_in(step.stack.0[0], step.stack.0[1], step.memory.len()) {
            Some(range) => range,
            None => {
                return Err(Error::TraceMalformed);
            },
        };
        if size > usize::MAX - 3 || !state.room_for(3 + size) {
            return Err(Error::TraceMalformed);
        }
        let at: usize = match find_resume(steps) {
            Some(j) => j,
            None => {
                return Err(Error::TraceMalformed);
            },
        };
        if steps[at].stack.len() < 1 {
            return Err(Error::TraceMalformed);
        }
        let call_id: usize = state.frames[state.frames.len() - 1].call_id;
        let mut accesses: Vec<Access> = read_accesses(call_id, &step.stack, 2);
        let mut bytes: Vec<Access> = read_range(call_id, &step.memory, offset, size);
        accesses.append(&mut bytes);
        let top: StackAddress = StackAddress(STACK_LIMIT - (step.stack.len() - 1));
        let hash: Word = steps[at].stack.0[0];
        accesses.push(Access { rw: RW::WRITE, op: Op::Stack { call_id, address: top, value: hash } });
        proof {
            let writes = stack_writes(call_id, (step.stack@.len() - 1) as nat, results(steps@, 1));
            assert(writes =~= seq![
                Access { rw: RW::WRITE, op: Op::Stack { call_id, address: top, value: hash } },
            ]);
            if size == 0 {
                assert(memory_reads(call_id, step.memory@, 0, 0) =~= memory_reads(
                    call_id,
                    step.memory@,
                    step.stack@[0].value(),
                    0,
                ));
            }
            assert(accesses@ =~= keccak_accesses(state@, steps@));
        }
        state.push_accesses(exec_step, &accesses);
        Ok(())
    }
}

impl CopyToMemory {
    /// Records the copy into memory at `steps[0]`, which takes `pops` words:
    /// the place to copy to is the word `dest` of the stack, and the length
    /// the word `size`. Where the trace lacks a word or a byte, it is
    /// malformed and nothing is recorded.
    pub fn gen_associated_ops(
        state: &mut CircuitInputState,
        exec_step: &mut ExecStep,
        steps: &[GethExecStep],
        pops: usize,
        dest: usize,
        size: usize,
    ) -> (r: Result<(), Error>)
        requires
            steps@.len() >= 1,
        ensures
            r.is_err() == copy_fails(old(state)@, steps@, pops as nat, dest as nat, size as nat),
            r.is_err() ==> r == Err::<(), Error>(Error::TraceMalformed) && final(state)@ == old(
                state,
            )@ && final(exec_step)@ == old(exec_step)@,
            r.is_ok() ==> final(state)@ == with_accesses(
                old(state)@,
                copy_accesses(old(state)@, steps@, pops as nat, dest as nat, size as nat),
            ),
            r.is_ok() ==> final(exec_step)@ == with_references(
                old(exec_step)@,
                old(state)@.ops.len(),
                copy_accesses(old(state)@, steps@, pops as nat, dest as nat, size as nat),
            ),
    {
        let step = &steps[0];
        if dest >= pops || size >= pops || !can_read(state, &step.stack, pops, 0) {
            return Err(Error::TraceMalformed);
        }
        let to_word: Word = step.stack.0[dest];
        let count_word: Word = step.stack.0[size];
        let count: usize = match count_word.as_u64() {
            Some(n) => if n <= usize::MAX as u64 {
                n as usize
            } else {
                return Err(Error::TraceMalformed);
            },
            None => {
                return Err(Error::TraceMalformed);
            },
        };
        if count > usize::MAX - pops || !state.room_for(pops + count) {
            return Err(Error::TraceMalformed);
        }
        let call_id: usize = state.frames[state.frames.len() - 1].call_id;
        let mut accesses: Vec<Access> = read_accesses(call_id, &step.stack, pops);
        if count > 0 {
            let at: usize = match find_resume(steps) {
                Some(j) => j,
                None => {
                    return Err(Error::TraceMalformed);
                },
            };
            let after = &steps[at].memory;
            let to: usize = match range_in(to_word, count_word, after.len()) {
                Some(range) => range.0,
                None => {
                    return Err(Error::TraceMalformed);
                },
            };
            let mut bytes: Vec<Access> = write_range(call_id, after, to, to as u64, count);
            accesses.append(&mut bytes);
        }
        proof {
            if count == 0 {
                assert(copy_accesses(state@, steps@, pops as nat, dest as nat, size as nat)
                    =~= stack_reads(call_id, step.stack@, pops as nat));
            }
            assert(accesses@ =~= copy_accesses(
                state@,
                steps@,
                pops as nat,
                dest as nat,
                size as nat,
            ));
        }
        state.push_accesses(exec_step, &accesses);
        Ok(())
    }
}

impl Mcopy {
    /// Records the copy from memory to memory at `steps[0]`. The bytes are
    /// read before any of them is written. Where the trace lacks a word or a
    /// byte, it is malformed and nothing is recorded.
    pub fn gen_associated_ops(
        state: &mut CircuitInputState,
        exec_step: &mut ExecStep,
        steps: &[GethExecStep],
    ) -> (r: Result<(), Error>)
        requires
            steps@.len() >= 1,
        ensures
            r.is_err() == mcopy_fails(old(state)@, steps@[0]),
            r.is_err() ==> r == Err::<(), Error>(Error::TraceMalformed) && final(state)@ == old(
                state,
            )@ && final(exec_step)@ == old(exec_step)@,
            r.is_ok() ==> final(state)@ == with_accesses(
                old(state)@,
                mcopy_accesses(old(state)@, steps@[0]),
            ),
            r.is_ok() ==> final(exec_step)@ == with_references(
                old(exec_step)@,
                old(state)@.ops.len(),
                mcopy_accesses(old(state)@, steps@[0]),
            ),
    {
        let step = &steps[0];
        if !can_read(state, &step.stack, 3, 0) {
            return Err(Error::TraceMalformed);
        }
        let (from, count) = match range_in(step.stack.0[1], step.stack.0[2], step.memory.len()) {
            Some(range) => range,
            None => {
                return Err(Error::TraceMalformed);
            },
        };
        if count > (usize::MAX - 3) / 2 || !state.room_for(3 + 2 * count) {
            return Err(Error::TraceMalformed);
        }
        let to: u64 = if count == 0 {
            0
        } else {
            match step.stack.0[0].as_u64() {
                Some(v) => if v <= u64::MAX - count as u64 {
                    v
                } else {
                    return Err(Error::TraceMalformed);
                },
                None => {
                    return Err(Error::TraceMalformed);
                },
            }
        };
        let call_id: usize = state.frames[state.frames.len() - 1].call_id;
        let mut accesses: Vec<Access> = read_accesses(call_id, &step.stack, 3);
        let mut reads: Vec<Access> = read_range(call_id, &step.memory, from, count);
        let mut writes: Vec<Access> = write_range(call_id, &step.memory, from, to, count);
        accesses.append(&mut reads);
        accesses.append(&mut writes);
        proof {
            if count == 0 {
                assert(mcopy_accesses(state@, *step) =~= stack_reads(call_id, step.stack@, 3));
            }
            assert(accesses@ =~= mcopy_accesses(state@, *step));
        }
        state.push_accesses(exec_step, &accesses);
        Ok(())
    }
}

} // verus!
