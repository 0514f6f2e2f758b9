//! Chains of pointers: a base address and the offsets that lead from it,
//! through the memory of a process, to the address of a value.

use crate::codec::le_value;
use crate::layout::{lemma_word_width, word_width, FixedLayout};
use crate::memory::{
    added, answered_from, bytes_at, continues, lemma_answered_step, lemma_continues_refl,
    lemma_continues_step, load, mapped, seq_of, store, Access, Memory, ProcessMemory,
};
use core::marker::PhantomData;
use vstd::prelude::*;

verus! {

/// What a chain is made of: where it starts, and the offsets to add on the way.
pub struct Chain {
    pub base: usize,
    pub offsets: Seq<usize>,
}

/// A chain of pointers to a value of type `T`.
///
/// The chain is never changed once made, and the address it leads to is never
/// kept: what lies on the way may move between two accesses, so every access
/// walks the chain anew.
#[derive(Debug)]
pub struct PointerChain<T> {
    base: usize,
    offsets: Vec<usize>,
    value: PhantomData<T>,
}

impl<T> View for PointerChain<T> {
    type V = Chain;

    closed spec fn view(&self) -> Chain {
        Chain { base: self.base, offsets: self.offsets@ }
    }
}

impl<T> Clone for PointerChain<T> {
    /// The same chain once more.
    fn clone(&self) -> (made: PointerChain<T>)
        ensures
            made@ == self@,
    {
        let mut offsets: Vec<usize> = Vec::new();
        let mut i: usize = 0;
        while i < self.offsets.len()
            invariant
                i <= self.offsets@.len(),
                offsets@ == self.offsets@.take(i as int),
            decreases self.offsets@.len() - i,
        {
            offsets.push(self.offsets[i]);
            i = i + 1;
        }
        assert(self.offsets@.take(i as int) =~= self.offsets@);
        PointerChain { base: self.base, offsets, value: PhantomData }
    }
}

/// The address that follows the pointer `word` by `offset`. Addresses are
/// taken modulo the width of an address.
pub open spec fn hop(word: usize, offset: usize) -> usize {
    word.wrapping_add(offset)
}

/// The bytes of an answer if it holds exactly `len` of them. A read that
/// brought fewer or more has failed.
pub open spec fn whole(got: Option<Seq<u8>>, len: nat) -> Option<Seq<u8>> {
    match got {
        Some(bytes) => if bytes.len() == len {
            Some(bytes)
        } else {
            None
        },
        None => None,
    }
}

/// The pointer that an answer holds, if it is a whole one.
pub open spec fn word_of(got: Option<Seq<u8>>) -> Option<usize> {
    match whole(got, word_width()) {
        Some(bytes) => Some(le_value(bytes) as usize),
        None => None,
    }
}

/// The pointer that `m` holds at `addr`.
pub open spec fn word_at(m: Memory, addr: usize) -> Option<usize> {
    word_of(load(m, addr, word_width()))
}

/// The address that the chain from `addr` over `offsets` leads to in `m`:
/// read a pointer at the address, add the next offset, and go on from the
/// sum. `None` if a pointer on the way cannot be read.
pub open spec fn resolve_from(m: Memory, addr: usize, offsets: Seq<usize>) -> Option<usize>
    decreases offsets.len(),
{
    if offsets.len() == 0 {
        Some(addr)
    } else {
        match word_at(m, addr) {
            Some(word) => resolve_from(m, hop(word, offsets[0]), offsets.skip(1)),
            None => None,
        }
    }
}

/// The address that `chain` leads to in `m`.
pub open spec fn resolve(m: Memory, chain: Chain) -> Option<usize> {
    resolve_from(m, chain.base, chain.offsets)
}

/// What a read brought; nothing for a write.
pub open spec fn answer(access: Access) -> Option<Seq<u8>> {
    match access {
        Access::Read { got, .. } => got,
        Access::Write { .. } => None,
    }
}

/// The address that a walk of `chain` has reached after `i` steps, given the
/// answers `t` to its reads: the base before the first step, and after step
/// `i` the pointer that read `i - 1` brought, moved by offset `i - 1`.
#[verifier::opaque]
pub open spec fn reached(chain: Chain, t: Seq<Access>, i: int) -> usize {
    if i <= 0 {
        chain.base
    } else {
        match word_of(answer(t[i - 1])) {
            Some(word) => hop(word, chain.offsets[i - 1]),
            None => chain.base,
        }
    }
}

/// Where a walk stands after `i` steps, said for the one step.
pub proof fn lemma_reached(chain: Chain, t: Seq<Access>, i: int)
    ensures
        i <= 0 ==> reached(chain, t, i) == chain.base,
        i > 0 ==> reached(chain, t, i) == match word_of(answer(t[i - 1])) {
            Some(word) => hop(word, chain.offsets[i - 1]),
            None => chain.base,
        },
{
    reveal(reached);
}

/// Where a walk stands after `i` steps depends on the answer to read `i - 1`
/// alone.
pub proof fn lemma_reached_same(chain: Chain, t1: Seq<Access>, t2: Seq<Access>, i: int)
    requires
        i > 0 ==> t1[i - 1] == t2[i - 1],
    ensures
        reached(chain, t1, i) == reached(chain, t2, i),
{
    reveal(reached);
}

/// `t` is a walk of `chain` that ended in `end`.
///
/// Step `i` reads one pointer at the address reached so far. The walk stops
/// at the first read that fails, with `None`, and makes no read after it;
/// else it makes one read for each offset and ends at the last address
/// reached.
pub open spec fn is_walk(chain: Chain, t: Seq<Access>, end: Option<usize>) -> bool {
    &&& t.len() <= chain.offsets.len()
    &&& forall|i: int|
        0 <= i < t.len() ==> #[trigger] t[i] == (Access::Read {
            addr: reached(chain, t, i),
            len: word_width() as usize,
            got: answer(t[i]),
        })
    &&& forall|i: int| 0 <= i < t.len() - 1 ==> word_of(answer(#[trigger] t[i])) is Some
    &&& match end {
        Some(addr) => {
            &&& t.len() == chain.offsets.len()
            &&& t.len() > 0 ==> word_of(answer(t.last())) is Some
            &&& addr == reached(chain, t, t.len() as int)
        },
        None => t.len() > 0 && word_of(answer(t.last())) is None,
    }
}

/// `t` is the beginning of a walk of `chain` in which no read has failed, and
/// `addr` is the address reached.
#[verifier::opaque]
spec fn walked(chain: Chain, t: Seq<Access>, addr: usize) -> bool {
    &&& t.len() <= chain.offsets.len()
    &&& forall|i: int|
        0 <= i < t.len() ==> #[trigger] t[i] == (Access::Read {
            addr: reached(chain, t, i),
            len: word_width() as usize,
            got: answer(t[i]),
        })
    &&& forall|i: int| 0 <= i < t.len() ==> word_of(answer(#[trigger] t[i])) is Some
    &&& addr == reached(chain, t, t.len() as int)
}

/// One more read carries a walk on by one step, or ends it.
proof fn lemma_walk_on(chain: Chain, t: Seq<Access>, addr: usize, got: Option<Seq<u8>>)
    requires
        walked(chain, t, addr),
        t.len() < chain.offsets.len(),
    ensures
        ({
            let next = t.push(Access::Read { addr, len: word_width() as usize, got });
            match word_of(got) {
                Some(word) => walked(chain, next, hop(word, chain.offsets[t.len() as int])),
                None => is_walk(chain, next, None),
            }
        }),
{
    reveal(walked);
    let access = Access::Read { addr, len: word_width() as usize, got };
    let next = t.push(access);
    assert forall|i: int| 0 <= i < next.len() implies #[trigger] next[i] == (Access::Read {
        addr: reached(chain, next, i),
        len: word_width() as usize,
        got: answer(next[i]),
    }) by {
        if i > 0 {
            assert(next[i - 1] == t[i - 1]);
        }
        lemma_reached_same(chain, t, next, i);
        if i < t.len() {
            assert(next[i] == t[i]);
        }
    }
    assert forall|i: int| 0 <= i < t.len() implies word_of(answer(#[trigger] next[i])) is Some by {
        assert(next[i] == t[i]);
    }
    assert(next[t.len() as int] == access);
    assert(next.last() == access);
    lemma_reached(chain, next, next.len() as int);
}

/// A walk that has made a read for every offset has arrived.
proof fn lemma_walk_done(chain: Chain, t: Seq<Access>, addr: usize)
    requires
        walked(chain, t, addr),
        t.len() == chain.offsets.len(),
    ensures
        is_walk(chain, t, Some(addr)),
{
    reveal(walked);
}

/// Before its first read a walk stands at the base of the chain.
proof fn lemma_walk_begin(chain: Chain)
    ensures
        walked(chain, Seq::<Access>::empty(), chain.base),
{
    reveal(walked);
    lemma_reached(chain, Seq::<Access>::empty(), 0);
}

/// In a memory, a walk goes on from the pointer read as `resolve_from` does.
proof fn lemma_resolve_step(m: Memory, addr: usize, offsets: Seq<usize>, i: int)
    requires
        0 <= i < offsets.len(),
    ensures
        resolve_from(m, addr, offsets.skip(i)) == match word_at(m, addr) {
            Some(word) => resolve_from(m, hop(word, offsets[i]), offsets.skip(i + 1)),
            None => None,
        },
{
    assert(offsets.skip(i).skip(1) =~= offsets.skip(i + 1));
}

/// A walk that arrived has made one read for each offset; one that failed
/// has made at least one read and no more than there are offsets.
pub proof fn lemma_walk_len(chain: Chain, t: Seq<Access>, end: Option<usize>)
    requires
        is_walk(chain, t, end),
    ensures
        match end {
            Some(addr) => t.len() == chain.offsets.len() && addr == reached(
                chain,
                t,
                t.len() as int,
            ),
            None => 0 < t.len() <= chain.offsets.len(),
        },
        forall|i: int| 0 <= i < t.len() ==> #[trigger] t[i] is Read,
{
}

/// What a read of a value of `len` bytes through `chain` brought, given the
/// accesses `t` that it made: the bytes of the last of them, if the walk
/// arrived and the read after it brought exactly `len` bytes.
pub open spec fn fetched(chain: Chain, len: nat, t: Seq<Access>) -> Option<Seq<u8>> {
    if t.len() == chain.offsets.len() + 1 {
        whole(answer(t.last()), len)
    } else {
        None
    }
}

/// `t` is what a read of a value of `len` bytes through `chain` does: it
/// walks the chain and, if the walk arrived, makes one read of `len` bytes at
/// the address reached. If the walk failed nothing follows it.
pub open spec fn is_fetch(chain: Chain, len: nat, t: Seq<Access>) -> bool {
    let n = chain.offsets.len() as int;
    if t.len() == n + 1 {
        &&& is_walk(chain, t.take(n), Some(reached(chain, t, n)))
        &&& t[n] matches Access::Read { addr, len: asked, got }
        &&& addr == reached(chain, t, n)
        &&& asked == len
    } else {
        is_walk(chain, t, None)
    }
}

/// `t` is what a write of `data` through `chain` does: it walks the chain
/// and, if the walk arrived, sends `data` once to the address reached, which
/// is taken or not as `done` tells. If the walk failed nothing follows it,
/// and `done` is `false`.
pub open spec fn is_send(chain: Chain, data: Seq<u8>, t: Seq<Access>, done: bool) -> bool {
    let n = chain.offsets.len() as int;
    if t.len() == n + 1 {
        &&& is_walk(chain, t.take(n), Some(reached(chain, t, n)))
        &&& t[n] == (Access::Write { addr: reached(chain, t, n), data, done })
    } else {
        is_walk(chain, t, None) && !done
    }
}

/// The bytes that a read of `len` bytes through `chain` yields in `m`.
pub open spec fn fetch_in(m: Memory, chain: Chain, len: nat) -> Option<Seq<u8>> {
    match resolve(m, chain) {
        Some(addr) => load(m, addr, len),
        None => None,
    }
}

/// Whether a write of `len` bytes through `chain` is taken in `m`.
pub open spec fn taken_in(m: Memory, chain: Chain, len: nat) -> bool {
    match resolve(m, chain) {
        Some(addr) => mapped(m, addr, len),
        None => false,
    }
}

/// `m` after a write of `data` through `chain`: changed only if the write is
/// taken, and then only in the bytes written.
pub open spec fn send_in(m: Memory, chain: Chain, data: Seq<u8>) -> Memory {
    match resolve(m, chain) {
        Some(addr) => if mapped(m, addr, data.len()) {
            store(m, addr, data)
        } else {
            m
        },
        None => m,
    }
}

/// The value that the bytes of an answer stand for.
pub open spec fn typed<T: FixedLayout>(out: Option<Seq<u8>>) -> Option<T> {
    match out {
        Some(bytes) => Some(T::from_image(bytes)),
        None => None,
    }
}

/// A walk that arrived, and one access after it.
proof fn lemma_walk_then(chain: Chain, walk: Seq<Access>, addr: usize, access: Access)
    requires
        is_walk(chain, walk, Some(addr)),
    ensures
        ({
            let t = walk.push(access);
            let n = chain.offsets.len() as int;
            &&& t.len() == n + 1
            &&& t.take(n) == walk
            &&& t[n] == access
            &&& t.last() == access
            &&& reached(chain, t, n) == addr
        }),
{
    lemma_walk_len(chain, walk, Some(addr));
    let t = walk.push(access);
    let n = chain.offsets.len() as int;
    assert(t.take(n) =~= walk);
    if n > 0 {
        assert(t[n - 1] == walk[n - 1]);
    }
    lemma_reached_same(chain, walk, t, n);
}

/// What was written is read back.
///
/// If a write of `value` through `chain` is taken in `m`, and the chain
/// leads to the same address after it as before, then a read through the
/// chain yields `value`.
pub proof fn lemma_write_then_read<T: FixedLayout>(m: Memory, chain: Chain, value: T)
    requires
        taken_in(m, chain, T::width()),
        resolve(send_in(m, chain, value.image()), chain) == resolve(m, chain),
    ensures
        typed::<T>(fetch_in(send_in(m, chain, value.image()), chain, T::width())) == Some(value),
{
    T::lemma_image(&value);
    let addr = resolve(m, chain).unwrap();
    let written = store(m, addr, value.image());
    assert(bytes_at(written, addr, T::width()) =~= value.image());
}

/// A write changes no byte but those it was sent to, and makes no address
/// valid or invalid.
pub proof fn lemma_write_elsewhere<T: FixedLayout>(m: Memory, chain: Chain, value: T, at: usize)
    requires
        resolve(m, chain) matches Some(addr) ==> at < addr || addr + T::width() <= at,
    ensures
        send_in(m, chain, value.image()).dom() == m.dom(),
        m.dom().contains(at) ==> send_in(m, chain, value.image())[at] == m[at],
{
    T::lemma_image(&value);
}

impl<T> PointerChain<T> {
    /// The chain that starts at the first entry of `chain` and goes on over
    /// the others as its offsets.
    pub fn new(chain: &[usize]) -> (made: PointerChain<T>)
        requires
            chain@.len() > 0,
        ensures
            made@ == (Chain { base: chain@[0], offsets: chain@.skip(1) }),
    {
        let mut offsets: Vec<usize> = Vec::new();
        let mut i: usize = 1;
        while i < chain.len()
            invariant
                1 <= i <= chain@.len(),
                offsets@ == chain@.subrange(1, i as int),
            decreases chain@.len() - i,
        {
            offsets.push(chain[i]);
            i = i + 1;
        }
        PointerChain { base: chain[0], offsets, value: PhantomData }
    }

    /// Walks the chain through the memory of `mem`.
    ///
    /// Every pointer on the way is read through `mem`, never through a pointer
    /// of the caller, so an address that is stale or was never valid comes
    /// back as `None` and not as a fault. A chain without offsets is its base,
    /// and no read is made for it.
    pub fn eval<M: ProcessMemory>(&self, mem: &mut M) -> (end: Option<usize>)
        ensures
            continues(*old(mem), *final(mem)),
            is_walk(self@, added(*old(mem), *final(mem)), end),
            old(mem).memory() matches Some(m) ==> end == resolve(m, self@) && final(mem).memory()
                == Some(m) && answered_from(m, added(*old(mem), *final(mem))),
    {
        let ghost pre = *mem;
        let mut addr: usize = self.base;
        let mut i: usize = 0;
        proof {
            lemma_continues_refl(pre);
            lemma_walk_begin(self@);
            assert(self.offsets@.skip(0) =~= self.offsets@);
        }
        while i < self.offsets.len()
            invariant
                pre == *old(mem),
                i <= self.offsets@.len(),
                continues(pre, *mem),
                added(pre, *mem).len() == i,
                walked(self@, added(pre, *mem), addr),
                pre.memory() matches Some(m) ==> mem.memory() == Some(m) && resolve(m, self@)
                    == resolve_from(m, addr, self.offsets@.skip(i as int)) && answered_from(
                    m,
                    added(pre, *mem),
                ),
            decreases self.offsets@.len() - i,
        {
            let ghost mid = *mem;
            let got = mem.read_memory(addr, core::mem::size_of::<usize>());
            proof {
                let access = Access::Read { addr, len: word_width() as usize, got: seq_of(got) };
                lemma_word_width();
                lemma_continues_step(pre, mid, *mem, access);
                lemma_walk_on(self@, added(pre, mid), addr, seq_of(got));
                if pre.memory() is Some {
                    let m = pre.memory().unwrap();
                    lemma_resolve_step(m, addr, self.offsets@, i as int);
                    lemma_answered_step(m, added(pre, mid), access);
                }
            }
            let word: usize = match got {
                Some(bytes) => {
                    if bytes.len() != core::mem::size_of::<usize>() {
                        return None;
                    }
                    usize::from_bytes(bytes.as_slice())
                },
                None => {
                    return None;
                },
            };
            addr = word.wrapping_add(self.offsets[i]);
            i = i + 1;
        }
        proof {
            lemma_walk_done(self@, added(pre, *mem), addr);
        }
        Some(addr)
    }
}

impl<T: FixedLayout> PointerChain<T> {
    /// Reads the value that the chain leads to.
    ///
    /// The chain is walked anew, and one read of the size of `T` is made at
    /// the address reached. `None` if the walk failed, or if that read was
    /// refused or did not bring all of the value.
    pub fn read<M: ProcessMemory>(&self, mem: &mut M) -> (value: Option<T>)
        ensures
            continues(*old(mem), *final(mem)),
            is_fetch(self@, T::width(), added(*old(mem), *final(mem))),
            value == typed::<T>(fetched(self@, T::width(), added(*old(mem), *final(mem)))),
            old(mem).memory() matches Some(m) ==> value == typed::<T>(
                fetch_in(m, self@, T::width()),
            ) && final(mem).memory() == Some(m) && answered_from(
                m,
                added(*old(mem), *final(mem)),
            ),
    {
        let ghost pre = *mem;
        let addr: usize = match self.eval(mem) {
            Some(addr) => addr,
            None => {
                proof {
                    lemma_walk_len(self@, added(pre, *mem), None);
                }
                return None;
            },
        };
        let ghost mid = *mem;
        let len: usize = T::size();
        let got = mem.read_memory(addr, len);
        proof {
            let access = Access::Read { addr, len, got: seq_of(got) };
            lemma_continues_step(pre, mid, *mem, access);
            lemma_walk_then(self@, added(pre, mid), addr, access);
            if pre.memory() is Some {
                lemma_answered_step(pre.memory().unwrap(), added(pre, mid), access);
            }
        }
        match got {
            Some(bytes) => {
                if bytes.len() != len {
                    return None;
                }
                Some(T::from_bytes(bytes.as_slice()))
            },
            None => None,
        }
    }

    /// Writes `value` where the chain leads to.
    ///
    /// The chain is walked anew, and the bytes of `value` are sent once to
    /// the address reached. `None` if the walk failed or the write was
    /// refused.
    pub fn write<M: ProcessMemory>(&self, mem: &mut M, value: T) -> (done: Option<()>)
        ensures
            continues(*old(mem), *final(mem)),
            is_send(self@, value.image(), added(*old(mem), *final(mem)), done is Some),
            old(mem).memory() matches Some(m) ==> (done is Some) == taken_in(
                m,
                self@,
                T::width(),
            ) && final(mem).memory() == Some(send_in(m, self@, value.image()))
                && answered_from(m, added(*old(mem), *final(mem))),
    {
        let ghost pre = *mem;
        let addr: usize = match self.eval(mem) {
            Some(addr) => addr,
            None => {
                proof {
                    lemma_walk_len(self@, added(pre, *mem), None);
                }
                return None;
            },
        };
        let ghost mid = *mem;
        let bytes = value.to_bytes();
        let taken = mem.write_memory(addr, bytes.as_slice());
        proof {
            let access = Access::Write { addr, data: bytes@, done: taken };
            T::lemma_image(&value);
            lemma_continues_step(pre, mid, *mem, access);
            lemma_walk_then(self@, added(pre, mid), addr, access);
            if pre.memory() is Some {
                lemma_answered_step(pre.memory().unwrap(), added(pre, mid), access);
            }
        }
        if taken {
            Some(())
        } else {
            None
        }
    }
}

} // verus!
