//! The capability to read and write the memory of a process, and the two ways
//! in which the library speaks of what such a capability did.
//!
//! The first is the record of the accesses made: it exists for every process,
//! and the contracts of the library say exactly which accesses a call makes
//! and what it returns for each way they can be answered. The second is the
//! content of the memory itself. It is known only of a process that nothing
//! else changes; for one that runs on its own accord nothing can be said of
//! its memory between two accesses.

use vstd::prelude::*;

verus! {

/// The bytes of an address space, by address. An address outside the domain
/// is one that the operating system refuses.
pub type Memory = Map<usize, u8>;

/// One request made of a process, with the answer it gave.
pub enum Access {
    /// `len` bytes were asked for at `addr`; `got` is what came back.
    Read { addr: usize, len: usize, got: Option<Seq<u8>> },
    /// `data` was sent to `addr`; `done` tells whether it was taken.
    Write { addr: usize, data: Seq<u8>, done: bool },
}

/// All `len` bytes from `addr` on exist in `m`.
pub open spec fn mapped(m: Memory, addr: usize, len: nat) -> bool {
    &&& addr + len <= usize::MAX + 1
    &&& forall|a: usize| addr <= a < addr + len ==> m.dom().contains(a)
}

/// The `len` bytes that `m` holds from `addr` on.
pub open spec fn bytes_at(m: Memory, addr: usize, len: nat) -> Seq<u8> {
    Seq::new(len, |i: int| m[(addr + i) as usize])
}

/// What a read of `len` bytes at `addr` yields: all of them, or nothing.
pub open spec fn load(m: Memory, addr: usize, len: nat) -> Option<Seq<u8>> {
    if mapped(m, addr, len) {
        Some(bytes_at(m, addr, len))
    } else {
        None
    }
}

/// `m` with `data` in place from `addr` on.
pub open spec fn store(m: Memory, addr: usize, data: Seq<u8>) -> Memory {
    Map::new(
        |a: usize| m.dom().contains(a),
        |a: usize|
            if addr <= a < addr + data.len() {
                data[a - addr]
            } else {
                m[a]
            },
    )
}

/// The answer recorded in `access` is the one that `m` gives: a read brought
/// what `m` holds, or nothing where `m` does not hold all of it; a write was
/// taken if and only if `m` holds every address that it was sent to.
pub open spec fn answered_by(m: Memory, access: Access) -> bool {
    match access {
        Access::Read { addr, len, got } => got == load(m, addr, len as nat),
        Access::Write { addr, data, done } => done == mapped(m, addr, data.len()),
    }
}

/// Every access of `t` was answered as `m` answers it.
pub open spec fn answered_from(m: Memory, t: Seq<Access>) -> bool {
    forall|i: int| 0 <= i < t.len() ==> answered_by(m, #[trigger] t[i])
}

/// A process whose memory can be read and written.
///
/// `accesses` is the record of what was asked through this capability and
/// how it was answered. `memory` is `Some` for a process that nothing else
/// changes, and then every answer comes from it; it is `None` for a process
/// that runs by itself, of which the record is all that is known.
///
/// The library has two such processes: [`Live`], for what an operating system
/// gives access to, and the one of [`crate::simulated`], which stands still.
pub trait ProcessMemory {
    /// The accesses made so far, oldest first.
    spec fn accesses(&self) -> Seq<Access>;

    /// The content of the memory, where it is nobody else's to change.
    spec fn memory(&self) -> Option<Memory>;

    /// Asks for the `len` bytes at `addr`. `None` is a refusal.
    fn read_memory(&mut self, addr: usize, len: usize) -> (got: Option<Vec<u8>>)
        ensures
            final(self).accesses() == old(self).accesses().push(
                Access::Read { addr, len, got: seq_of(got) },
            ),
            old(self).memory() matches Some(m) ==> seq_of(got) == load(m, addr, len as nat)
                && final(self).memory() == Some(m),
    ;

    /// Sends `data` to `addr`. `false` is a refusal, and then nothing was written.
    fn write_memory(&mut self, addr: usize, data: &[u8]) -> (done: bool)
        ensures
            final(self).accesses() == old(self).accesses().push(
                Access::Write { addr, data: data@, done },
            ),
            old(self).memory() matches Some(m) ==> done == mapped(m, addr, data@.len())
                && final(self).memory() == Some(
                if done {
                    store(m, addr, data@)
                } else {
                    m
                },
            ),
    ;
}

/// What an operating system offers to reach the memory of a process. Nothing
/// is taken for granted of an implementation: whatever it answers is an
/// answer.
pub trait RawMemory {
    /// Asks for the `len` bytes at `addr`. `None` is a refusal.
    fn read_raw(&self, addr: usize, len: usize) -> Option<Vec<u8>>;

    /// Sends `data` to `addr`. `false` is a refusal.
    fn write_raw(&self, addr: usize, data: &[u8]) -> bool;
}

/// A process that runs on its own accord, reached through `R`. The record of
/// the accesses is all that is known of it: its memory may change between
/// any two of them. What it is reached through is only ever borrowed, so it
/// is the same after an access as before.
pub struct Live<R> {
    raw: R,
    seen: Ghost<Seq<Access>>,
}

impl<R: RawMemory> Live<R> {
    /// What the process is reached through.
    pub closed spec fn inner(&self) -> R {
        self.raw
    }

    /// The process reached through `raw`, of which nothing was asked yet.
    pub fn new(raw: R) -> (made: Live<R>)
        ensures
            made.inner() == raw,
            made.accesses() == Seq::<Access>::empty(),
    {
        Live { raw, seen: Ghost(Seq::empty()) }
    }

    /// What the process is reached through.
    pub fn raw(&self) -> (raw: &R)
        ensures
            *raw == self.inner(),
    {
        &self.raw
    }
}

impl<R: RawMemory> ProcessMemory for Live<R> {
    closed spec fn accesses(&self) -> Seq<Access> {
        self.seen@
    }

    open spec fn memory(&self) -> Option<Memory> {
        None
    }

    fn read_memory(&mut self, addr: usize, len: usize) -> (got: Option<Vec<u8>>)
        ensures
            final(self).inner() == old(self).inner(),
    {
        let got = self.raw.read_raw(addr, len);
        proof {
            self.seen@ = self.seen@.push(Access::Read { addr, len, got: seq_of(got) });
        }
        got
    }

    fn write_memory(&mut self, addr: usize, data: &[u8]) -> (done: bool)
        ensures
            final(self).inner() == old(self).inner(),
    {
        let done = self.raw.write_raw(addr, data);
        proof {
            self.seen@ = self.seen@.push(Access::Write { addr, data: data@, done });
        }
        done
    }
}

/// The bytes of an answer, as a sequence.
pub open spec fn seq_of(got: Option<Vec<u8>>) -> Option<Seq<u8>> {
    match got {
        Some(bytes) => Some(bytes@),
        None => None,
    }
}

/// The accesses that `post` has seen and `pre` has not.
pub open spec fn added<M: ProcessMemory>(pre: M, post: M) -> Seq<Access> {
    post.accesses().skip(pre.accesses().len() as int)
}

/// `post` is `pre` some accesses later: its record is that of `pre` with
/// the new accesses behind it.
pub open spec fn continues<M: ProcessMemory>(pre: M, post: M) -> bool {
    post.accesses() == pre.accesses() + added(pre, post)
}

/// Nothing has happened between a state and itself.
pub proof fn lemma_continues_refl<M: ProcessMemory>(pre: M)
    ensures
        continues(pre, pre),
        added(pre, pre) == Seq::<Access>::empty(),
{
}

/// One more access continues what came before it.
pub proof fn lemma_continues_step<M: ProcessMemory>(pre: M, mid: M, post: M, access: Access)
    requires
        continues(pre, mid),
        post.accesses() == mid.accesses().push(access),
    ensures
        continues(pre, post),
        added(pre, post) == added(pre, mid).push(access),
{
}

/// Accesses answered from a memory, and one more that it answers too.
pub proof fn lemma_answered_step(m: Memory, t: Seq<Access>, access: Access)
    requires
        answered_from(m, t),
        answered_by(m, access),
    ensures
        answered_from(m, t.push(access)),
{
    let next = t.push(access);
    assert forall|i: int| 0 <= i < next.len() implies answered_by(m, #[trigger] next[i]) by {
        if i < t.len() {
            assert(next[i] == t[i]);
        }
    }
}

/// Two stretches of accesses answered from a memory are one such stretch.
pub proof fn lemma_answered_both(m: Memory, t1: Seq<Access>, t2: Seq<Access>)
    requires
        answered_from(m, t1),
        answered_from(m, t2),
    ensures
        answered_from(m, t1 + t2),
{
    let t = t1 + t2;
    assert forall|i: int| 0 <= i < t.len() implies answered_by(m, #[trigger] t[i]) by {
        if i < t1.len() {
            assert(t[i] == t1[i]);
        } else {
            assert(t[i] == t2[i - t1.len()]);
        }
    }
}

/// What continues a state that continues another, continues that one; the
/// accesses added are those of the first stretch followed by those of the
/// second.
pub proof fn lemma_continues_trans<M: ProcessMemory>(pre: M, mid: M, post: M)
    requires
        continues(pre, mid),
        continues(mid, post),
    ensures
        continues(pre, post),
        added(pre, post) == added(pre, mid) + added(mid, post),
{
    assert(post.accesses() =~= pre.accesses() + added(pre, post));
}

} // verus!
