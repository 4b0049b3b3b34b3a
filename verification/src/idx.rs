//! The telegram multiplexer's identifier pool. Every datagram on the wire
//! carries one of a fixed set of index values; an index is in use from the
//! moment its datagram is sent until the echo is matched or the wait times
//! out, and is never handed out twice while in use.

use vstd::prelude::*;

verus! {

/// Cardinality of the wire protocol's index field as this engine uses it.
pub const IDX_POOL_SIZE: usize = 8;

/// Every identifier is awaiting its echo: a caller protocol violation
/// (overlapping outstanding requests), not a network fault.
#[derive(Clone, Copy, Debug, PartialEq, Eq, Structural)]
pub struct Exhausted;

/// The pool of telegram identifiers. The view maps each identifier to
/// whether it is in use.
pub struct IdxStack {
    in_use: Vec<bool>,
}

impl View for IdxStack {
    type V = Seq<bool>;

    closed spec fn view(&self) -> Seq<bool> {
        self.in_use@
    }
}

impl IdxStack {
    /// The pool always holds exactly `IDX_POOL_SIZE` slots.
    pub open spec fn wf(&self) -> bool {
        self@.len() == IDX_POOL_SIZE
    }

    /// All identifiers are free.
    pub open spec fn all_free(&self) -> bool {
        forall|i: int| 0 <= i < self@.len() ==> !self@[i]
    }

    /// A fresh pool with every identifier free.
    pub fn new() -> (r: IdxStack)
        ensures
            r.wf(),
            r.all_free(),
    {
        let mut v: Vec<bool> = Vec::new();
        let mut i: usize = 0;
        while i < IDX_POOL_SIZE
            invariant
                i <= IDX_POOL_SIZE,
                v@.len() == i,
                forall|j: int| 0 <= j < i ==> !v@[j],
            decreases IDX_POOL_SIZE - i,
        {
            v.push(false);
            i = i + 1;
        }
        IdxStack { in_use: v }
    }

    /// Take a free identifier out of the pool, marking it in use; fails
    /// only when every identifier is still awaiting its echo.
    pub fn acquire(&mut self) -> (r: Result<u8, Exhausted>)
        requires
            old(self).wf(),
        ensures
            final(self).wf(),
            r matches Ok(i) ==> i < IDX_POOL_SIZE && !old(self)@[i as int] && final(self)@ == old(
                self,
            )@.update(i as int, true),
            r is Err ==> final(self)@ == old(self)@ && (forall|i: int|
                0 <= i < IDX_POOL_SIZE ==> old(self)@[i]),
    {
        let mut i: usize = 0;
        while i < IDX_POOL_SIZE
            invariant
                self == old(self),
                self.wf(),
                i <= IDX_POOL_SIZE,
                forall|j: int| 0 <= j < i ==> self@[j],
            decreases IDX_POOL_SIZE - i,
        {
            if !self.in_use[i] {
                self.in_use.set(i, true);
                return Ok(i as u8);
            }
            i = i + 1;
        }
        Err(Exhausted)
    }

    /// Hand an identifier back after its echo was matched or given up on.
    pub fn release(&mut self, id: u8)
        requires
            old(self).wf(),
            id < IDX_POOL_SIZE,
            old(self)@[id as int],
        ensures
            final(self).wf(),
            final(self)@ == old(self)@.update(id as int, false),
    {
        self.in_use.set(id as usize, false);
    }

    /// Whether the given identifier is in use.
    pub fn is_in_use(&self, id: u8) -> (r: bool)
        requires
            self.wf(),
            id < IDX_POOL_SIZE,
        ensures
            r == self@[id as int],
    {
        self.in_use[id as usize]
    }
}

/// How many of the first `i` pool slots are in use.
pub open spec fn count_true(s: Seq<bool>, i: int) -> int
    decreases i,
{
    if i <= 0 {
        0
    } else {
        count_true(s, i - 1) + if s[i - 1] {
            1int
        } else {
            0int
        }
    }
}

/// The in-use count lies between zero and the prefix length, is zero on an
/// all-free prefix and the full length on an all-used one.
pub proof fn lemma_count_true_bounds(s: Seq<bool>, i: int)
    requires
        0 <= i,
    ensures
        0 <= count_true(s, i) <= i,
        (forall|k: int| 0 <= k < i ==> !s[k]) ==> count_true(s, i) == 0,
        (forall|k: int| 0 <= k < i ==> s[k]) ==> count_true(s, i) == i,
    decreases i,
{
    if i > 0 {
        lemma_count_true_bounds(s, i - 1);
    }
}

/// Marking one free slot used raises the in-use count of a prefix
/// containing it by exactly one.
pub proof fn lemma_count_true_update(s: Seq<bool>, j: int, i: int)
    requires
        0 <= j < s.len(),
        !s[j],
        0 <= i <= s.len(),
    ensures
        count_true(s.update(j, true), i) == count_true(s, i) + if j < i {
            1int
        } else {
            0int
        },
    decreases i,
{
    if i > 0 {
        lemma_count_true_update(s, j, i - 1);
    }
}

impl Default for IdxStack {
    /// A fresh pool with every identifier free.
    fn default() -> (r: IdxStack)
        ensures
            r.wf(),
            r.all_free(),
    {
        IdxStack::new()
    }
}

} // verus!
