//! The elementary state accesses that an execution performs, and the
//! container that numbers them.
use vstd::prelude::*;
use crate::word::{Address, Word};

verus! {

/// Whether an operation reads or writes its location.
#[derive(Clone, Copy, Debug, PartialEq, Eq, Structural)]
pub enum RW {
    READ,
    WRITE,
}

/// The kinds of operation.
#[derive(Clone, Copy, Debug, PartialEq, Eq, Structural)]
pub enum Target {
    Stack,
    Memory,
    Storage,
    TransientStorage,
    Account,
    AccountStorage,
    CallContext,
    TxAccessListAccount,
    TxRefund,
    TxLog,
    TxReceipt,
}

/// The position of a stack slot: a stack of `n` words fills the addresses
/// `1024 - n` to `1023`, its top at `1024 - n`.
#[derive(Clone, Copy, Debug, PartialEq, Eq, Structural)]
pub struct StackAddress(pub usize);

/// A field of an account.
#[derive(Clone, Copy, Debug, PartialEq, Eq, Structural)]
pub enum AccountField {
    Nonce,
    Balance,
    CodeHash,
}

/// A field of a call frame.
#[derive(Clone, Copy, Debug, PartialEq, Eq, Structural)]
pub enum CallContextField {
    TxId,
    Depth,
    CallerAddress,
    CalleeAddress,
    IsStatic,
    IsCreate,
    ReturnPc,
}

/// A field of a log entry.
#[derive(Clone, Copy, Debug, PartialEq, Eq, Structural)]
pub enum TxLogFieldTag {
    Address,
    Topic,
    Data,
}

/// A field of a transaction receipt.
#[derive(Clone, Copy, Debug, PartialEq, Eq, Structural)]
pub enum TxReceiptField {
    PostStateOrStatus,
    LogLength,
}

/// One state access, with the key that its kind calls for and the values
/// before and after it. Where only one value is held the access leaves the
/// location as it was, or the former value is of no interest. The handlers
/// of this crate make no `Storage` and no `TxRefund` operation: the two kinds
/// are there for those who insert such operations themselves.
#[derive(Clone, Copy, Debug, PartialEq, Eq, Structural)]
#[allow(inconsistent_fields)]
pub enum Op {
    Stack { call_id: usize, address: StackAddress, value: Word },
    Memory { call_id: usize, address: u64, value: u8 },
    Storage { call_id: usize, key: Word, value: Word, value_prev: Word },
    TransientStorage { tx_id: usize, address: Address, key: Word, value: Word, value_prev: Word },
    Account { address: Address, field: AccountField, value: Word, value_prev: Word },
    AccountStorage { tx_id: usize, address: Address, key: Word, value: Word, value_prev: Word },
    CallContext { call_id: usize, field: CallContextField, value: Word },
    TxAccessListAccount { tx_id: usize, address: Address, slot: Word, is_warm: bool, is_warm_prev: bool },
    TxRefund { tx_id: usize, value: u64, value_prev: u64 },
    TxLog { tx_id: usize, address: Address, value: Word },
    TxReceipt { tx_id: usize, field: TxReceiptField, value: u64 },
}

impl Op {
    /// The kind of the operation.
    pub open spec fn spec_target(&self) -> Target {
        match *self {
            Op::Stack { .. } => Target::Stack,
            Op::Memory { .. } => Target::Memory,
            Op::Storage { .. } => Target::Storage,
            Op::TransientStorage { .. } => Target::TransientStorage,
            Op::Account { .. } => Target::Account,
            Op::AccountStorage { .. } => Target::AccountStorage,
            Op::CallContext { .. } => Target::CallContext,
            Op::TxAccessListAccount { .. } => Target::TxAccessListAccount,
            Op::TxRefund { .. } => Target::TxRefund,
            Op::TxLog { .. } => Target::TxLog,
            Op::TxReceipt { .. } => Target::TxReceipt,
        }
    }

    /// The kind of the operation.
    #[verifier::when_used_as_spec(spec_target)]
    pub fn target(&self) -> (t: Target)
        ensures
            t == self.spec_target(),
    {
        match *self {
            Op::Stack { .. } => Target::Stack,
            Op::Memory { .. } => Target::Memory,
            Op::Storage { .. } => Target::Storage,
            Op::TransientStorage { .. } => Target::TransientStorage,
            Op::Account { .. } => Target::Account,
            Op::AccountStorage { .. } => Target::AccountStorage,
            Op::CallContext { .. } => Target::CallContext,
            Op::TxAccessListAccount { .. } => Target::TxAccessListAccount,
            Op::TxRefund { .. } => Target::TxRefund,
            Op::TxLog { .. } => Target::TxLog,
            Op::TxReceipt { .. } => Target::TxReceipt,
        }
    }
}

impl Op {
    /// Whether two operations are of one kind and have the same key: whether
    /// they access the same location.
    pub open spec fn same_location(&self, other: Op) -> bool {
        match (*self, other) {
            (Op::Stack { call_id: a, address: x, .. }, Op::Stack { call_id: b, address: y, .. }) => a
                == b && x == y,
            (
                Op::Memory { call_id: a, address: x, .. },
                Op::Memory { call_id: b, address: y, .. },
            ) => a == b && x == y,
            (Op::Storage { call_id: a, key: x, .. }, Op::Storage { call_id: b, key: y, .. }) => a
                == b && x == y,
            (
                Op::TransientStorage { tx_id: a, address: x, key: k, .. },
                Op::TransientStorage { tx_id: b, address: y, key: l, .. },
            ) => a == b && x == y && k == l,
            (
                Op::Account { address: x, field: f, .. },
                Op::Account { address: y, field: g, .. },
            ) => x == y && f == g,
            (
                Op::AccountStorage { tx_id: a, address: x, key: k, .. },
                Op::AccountStorage { tx_id: b, address: y, key: l, .. },
            ) => a == b && x == y && k == l,
            (
                Op::CallContext { call_id: a, field: f, .. },
                Op::CallContext { call_id: b, field: g, .. },
            ) => a == b && f == g,
            (
                Op::TxAccessListAccount { tx_id: a, address: x, slot: k, .. },
                Op::TxAccessListAccount { tx_id: b, address: y, slot: l, .. },
            ) => a == b && x == y && k == l,
            (Op::TxRefund { tx_id: a, .. }, Op::TxRefund { tx_id: b, .. }) => a == b,
            (Op::TxLog { tx_id: a, address: x, .. }, Op::TxLog { tx_id: b, address: y, .. }) => a
                == b && x == y,
            (
                Op::TxReceipt { tx_id: a, field: f, .. },
                Op::TxReceipt { tx_id: b, field: g, .. },
            ) => a == b && f == g,
            _ => false,
        }
    }

    /// Whether two operations access the same location.
    pub fn at_same_location(&self, other: &Op) -> (r: bool)
        ensures
            r == self.same_location(*other),
    {
        match (*self, *other) {
            (Op::Stack { call_id: a, address: x, .. }, Op::Stack { call_id: b, address: y, .. }) => a
                == b && x == y,
            (
                Op::Memory { call_id: a, address: x, .. },
                Op::Memory { call_id: b, address: y, .. },
            ) => a == b && x == y,
            (Op::Storage { call_id: a, key: x, .. }, Op::Storage { call_id: b, key: y, .. }) => a
                == b && x == y,
            (
                Op::TransientStorage { tx_id: a, address: x, key: k, .. },
                Op::TransientStorage { tx_id: b, address: y, key: l, .. },
            ) => a == b && x == y && k == l,
            (
                Op::Account { address: x, field: f, .. },
                Op::Account { address: y, field: g, .. },
            ) => x == y && f == g,
            (
                Op::AccountStorage { tx_id: a, address: x, key: k, .. },
                Op::AccountStorage { tx_id: b, address: y, key: l, .. },
            ) => a == b && x == y && k == l,
            (
                Op::CallContext { call_id: a, field: f, .. },
                Op::CallContext { call_id: b, field: g, .. },
            ) => a == b && f == g,
            (
                Op::TxAccessListAccount { tx_id: a, address: x, slot: k, .. },
                Op::TxAccessListAccount { tx_id: b, address: y, slot: l, .. },
            ) => a == b && x == y && k == l,
            (Op::TxRefund { tx_id: a, .. }, Op::TxRefund { tx_id: b, .. }) => a == b,
            (Op::TxLog { tx_id: a, address: x, .. }, Op::TxLog { tx_id: b, address: y, .. }) => a
                == b && x == y,
            (
                Op::TxReceipt { tx_id: a, field: f, .. },
                Op::TxReceipt { tx_id: b, field: g, .. },
            ) => a == b && f == g,
            _ => false,
        }
    }
}

/// Whether one of `ops` accesses the location of `op`.
pub open spec fn holds_location(ops: Seq<Operation>, op: Op) -> bool {
    exists|i: int| 0 <= i < ops.len() && (#[trigger] ops[i]).op.same_location(op)
}

/// For each location that `ops` access, the first of `ops` that accesses it,
/// in the order of `ops`.
pub open spec fn first_of_each_location(ops: Seq<Operation>) -> Seq<Operation>
    decreases ops.len(),
{
    if ops.len() == 0 {
        ops
    } else {
        let before = first_of_each_location(ops.drop_last());
        if holds_location(before, ops.last().op) {
            before
        } else {
            before.push(ops.last())
        }
    }
}

/// For each location that `ops` access, the first of `ops` that accesses it,
/// in the order of `ops`.
pub fn first_accesses(ops: &Vec<Operation>) -> (firsts: Vec<Operation>)
    ensures
        firsts@ == first_of_each_location(ops@),
{
    let mut firsts: Vec<Operation> = Vec::new();
    let n: usize = ops.len();
    let mut i: usize = 0;
    proof {
        assert(ops@.take(0) =~= Seq::<Operation>::empty());
    }
    while i < n
        invariant
            i <= n,
            n == ops@.len(),
            firsts@ == first_of_each_location(ops@.take(i as int)),
        decreases n - i,
    {
        let o: Operation = ops[i];
        let kept: usize = firsts.len();
        let mut found: bool = false;
        let mut j: usize = 0;
        while j < kept && !found
            invariant
                j <= kept,
                kept == firsts@.len(),
                found ==> holds_location(firsts@, o.op),
                !found ==> forall|k: int| 0 <= k < j ==> !(#[trigger] firsts@[k]).op.same_location(o.op),
            decreases kept - j + if found { 0int } else { 1int },
        {
            if firsts[j].op.at_same_location(&o.op) {
                found = true;
            } else {
                j = j + 1;
            }
        }
        proof {
            let next = ops@.take(i + 1);
            assert(next.drop_last() =~= ops@.take(i as int));
            assert(next.last() == o);
        }
        if !found {
            firsts.push(o);
        }
        i = i + 1;
    }
    proof {
        assert(ops@.take(n as int) =~= ops@);
    }
    firsts
}

/// An operation as the container holds it: with its counter.
#[derive(Clone, Copy, Debug, PartialEq, Eq, Structural)]
pub struct Operation {
    /// The read-write counter: the operation's place in the block, from 1.
    pub rwc: usize,
    pub rw: RW,
    pub op: Op,
}

/// A handle to an operation in a container.
#[derive(Clone, Copy, Debug, PartialEq, Eq, Structural)]
pub struct RwReference {
    pub target: Target,
    pub rwc: usize,
}

/// The operation that `(rw, op)` becomes as the `(n + 1)`-th of a container.
pub open spec fn numbered(n: int, rw: RW, op: Op) -> Operation {
    Operation { rwc: (n + 1) as usize, rw, op }
}

/// The handle to that operation.
pub open spec fn reference_to(n: int, op: Op) -> RwReference {
    RwReference { target: op.spec_target(), rwc: (n + 1) as usize }
}

/// Whether the counters of `ops` are 1, 2, and so on, in this order.
pub open spec fn counted_from_one(ops: Seq<Operation>) -> bool {
    forall|i: int| 0 <= i < ops.len() ==> (#[trigger] ops[i]).rwc == i + 1
}

/// All operations of a block, in the order in which they were made.
#[derive(Debug)]
pub struct OperationContainer {
    ops: Vec<Operation>,
}

impl View for OperationContainer {
    type V = Seq<Operation>;

    closed spec fn view(&self) -> Seq<Operation> {
        self.ops@
    }
}

impl OperationContainer {
    /// What every container keeps: the counters run from 1 without a gap.
    #[verifier::type_invariant]
    closed spec fn counted(&self) -> bool {
        counted_from_one(self.ops@)
    }

    /// The container without operations.
    pub fn new() -> (c: OperationContainer)
        ensures
            c@ == Seq::<Operation>::empty(),
    {
        OperationContainer { ops: Vec::new() }
    }

    /// The number of operations.
    pub fn len(&self) -> (n: usize)
        ensures
            n == self@.len(),
    {
        self.ops.len()
    }

    /// Appends `op` under the next counter and gives the handle to it.
    pub fn insert(&mut self, rw: RW, op: Op) -> (r: RwReference)
        requires
            old(self)@.len() < usize::MAX,
        ensures
            final(self)@ == old(self)@.push(numbered(old(self)@.len() as int, rw, op)),
            r == reference_to(old(self)@.len() as int, op),
    {
        proof {
            use_type_invariant(&*self);
        }
        let rwc: usize = self.ops.len() + 1;
        let mut taken = OperationContainer { ops: Vec::new() };
        core::mem::swap(self, &mut taken);
        let mut ops = taken.ops;
        ops.push(Operation { rwc, rw, op });
        *self = OperationContainer { ops };
        RwReference { target: op.target(), rwc }
    }

    /// The operation that `r` is the handle to, where the container holds it.
    pub fn get(&self, r: RwReference) -> (found: Option<Operation>)
        ensures
            found == resolve(self@, r),
    {
        if 1 <= r.rwc && r.rwc <= self.ops.len() {
            let o: Operation = self.ops[r.rwc - 1];
            if o.op.target() == r.target {
                Some(o)
            } else {
                None
            }
        } else {
            None
        }
    }

    /// All operations, by their counters. The counters are 1, 2, and so on
    /// up to the number of operations: none is missing and none comes twice.
    pub fn operations(&self) -> (all: &Vec<Operation>)
        ensures
            all@ == self@,
            counted_from_one(self@),
    {
        proof {
            use_type_invariant(self);
        }
        &self.ops
    }

    /// The operations of one kind, in the order in which they were made.
    pub fn operations_of(&self, target: Target) -> (found: Vec<Operation>)
        ensures
            found@ == of_kind(self@, target),
    {
        let mut found: Vec<Operation> = Vec::new();
        let n: usize = self.ops.len();
        let mut i: usize = 0;
        proof {
            reveal(Seq::filter);
        }
        while i < n
            invariant
                n == self.ops@.len(),
                i <= n,
                found@ == of_kind(self.ops@.take(i as int), target),
            decreases n - i,
        {
            let o: Operation = self.ops[i];
            proof {
                let next = self.ops@.take(i + 1);
                let wanted = |o: Operation| o.op.spec_target() == target;
                reveal(Seq::filter);
                assert(next.drop_last() =~= self.ops@.take(i as int));
                assert(next.last() == o);
                assert(next.filter(wanted) == if wanted(o) {
                    next.drop_last().filter(wanted).push(o)
                } else {
                    next.drop_last().filter(wanted)
                });
            }
            if o.op.target() == target {
                found.push(o);
            }
            i = i + 1;
        }
        proof {
            assert(self.ops@.take(n as int) =~= self.ops@);
        }
        found
    }

    /// The operations of one kind without those that access a location which
    /// an earlier one of them has accessed: for each key of that kind, the
    /// first operation on it.
    pub fn deduplicated(&self, target: Target) -> (firsts: Vec<Operation>)
        ensures
            firsts@ == first_of_each_location(of_kind(self@, target)),
    {
        let ops = self.operations_of(target);
        first_accesses(&ops)
    }

    /// Whether two containers hold the same operations in the same order.
    pub fn same_as(&self, other: &OperationContainer) -> (r: bool)
        ensures
            r == (self@ == other@),
    {
        let n: usize = self.ops.len();
        if n != other.ops.len() {
            return false;
        }
        let mut i: usize = 0;
        while i < n
            invariant
                n == self.ops@.len(),
                n == other.ops@.len(),
                i <= n,
                self.ops@.take(i as int) == other.ops@.take(i as int),
            decreases n - i,
        {
            if !(self.ops[i] == other.ops[i]) {
                proof {
                    assert(self.ops@[i as int] != other.ops@[i as int]);
                }
                return false;
            }
            proof {
                assert(self.ops@.take(i + 1) =~= self.ops@.take(i as int).push(self.ops@[i as int]));
                assert(other.ops@.take(i + 1) =~= other.ops@.take(i as int).push(
                    other.ops@[i as int],
                ));
            }
            i = i + 1;
        }
        proof {
            assert(self.ops@.take(n as int) =~= self.ops@);
            assert(other.ops@.take(n as int) =~= other.ops@);
        }
        true
    }
}

impl PartialEq for OperationContainer {
    /// Two containers are equal when they hold the same operations in the
    /// same order.
    fn eq(&self, other: &OperationContainer) -> (r: bool) {
        self.same_as(other)
    }
}

impl vstd::std_specs::cmp::PartialEqSpecImpl for OperationContainer {
    open spec fn obeys_eq_spec() -> bool {
        true
    }

    open spec fn eq_spec(&self, other: &OperationContainer) -> bool {
        self@ == other@
    }
}

/// The operations of `ops` whose kind is `target`, in their order.
pub open spec fn of_kind(ops: Seq<Operation>, target: Target) -> Seq<Operation> {
    ops.filter(|o: Operation| o.op.spec_target() == target)
}

/// What a handle stands for in a sequence of operations.
pub open spec fn resolve(ops: Seq<Operation>, r: RwReference) -> Option<Operation> {
    if 1 <= r.rwc <= ops.len() && ops[r.rwc - 1].op.spec_target() == r.target {
        Some(ops[r.rwc - 1])
    } else {
        None
    }
}

} // verus!
