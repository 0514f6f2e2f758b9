//! Flags: some bits of an unsigned number in the memory of a process, read and
//! changed together without touching the other bits.

use crate::chain::{
    fetch_in, fetched, is_fetch, is_send, lemma_walk_len, lemma_write_then_read, reached, resolve,
    send_in, typed, Chain, PointerChain,
};
use crate::layout::FixedLayout;
use crate::memory::{
    added, answered_from, continues, lemma_answered_both, lemma_continues_trans, Access, Memory,
    ProcessMemory,
};
use vstd::prelude::*;

verus! {

/// An unsigned number of fixed width, with the four operations on its bits
/// that a flag needs.
pub trait FlagWord: FixedLayout + Copy {
    /// The number without any bit set.
    spec fn zero() -> Self;

    /// The bits set in both.
    spec fn spec_and(self, other: Self) -> Self;

    /// The bits set in either.
    spec fn spec_or(self, other: Self) -> Self;

    /// The bits set in exactly one of the two.
    spec fn spec_xor(self, other: Self) -> Self;

    /// The bits that are not set.
    spec fn spec_not(self) -> Self;

    /// What the operations have in common at every width.
    proof fn lemma_bits(x: Self, mask: Self)
        ensures
            x.spec_or(mask).spec_and(mask) == mask,
            x.spec_and(mask.spec_not()).spec_and(mask) == Self::zero(),
            x.spec_or(mask).spec_and(mask.spec_not()) == x.spec_and(mask.spec_not()),
            x.spec_and(mask.spec_not()).spec_and(mask.spec_not()) == x.spec_and(mask.spec_not()),
            x.spec_xor(mask).spec_xor(mask) == x,
            x.spec_xor(mask).spec_and(mask.spec_not()) == x.spec_and(mask.spec_not()),
            (x.spec_xor(mask).spec_and(mask) == mask) == (x.spec_and(mask) == Self::zero()),
            x.spec_or(mask).spec_or(mask) == x.spec_or(mask),
            x.spec_xor(mask).spec_and(mask) == x.spec_not().spec_and(mask),
    ;

    /// The bits set in both.
    fn bit_and(self, other: Self) -> (r: Self)
        ensures
            r == self.spec_and(other),
    ;

    /// The bits set in either.
    fn bit_or(self, other: Self) -> (r: Self)
        ensures
            r == self.spec_or(other),
    ;

    /// The bits set in exactly one of the two.
    fn bit_xor(self, other: Self) -> (r: Self)
        ensures
            r == self.spec_xor(other),
    ;

    /// The bits that are not set.
    fn bit_not(self) -> (r: Self)
        ensures
            r == self.spec_not(),
    ;

    /// Whether two numbers are the same.
    fn same(self, other: Self) -> (r: bool)
        ensures
            r == (self == other),
    ;
}

impl FlagWord for u8 {
    open spec fn zero() -> u8 {
        0
    }

    open spec fn spec_and(self, other: u8) -> u8 {
        self & other
    }

    open spec fn spec_or(self, other: u8) -> u8 {
        self | other
    }

    open spec fn spec_xor(self, other: u8) -> u8 {
        self ^ other
    }

    open spec fn spec_not(self) -> u8 {
        !self
    }

    proof fn lemma_bits(x: u8, mask: u8) {
        assert((x | mask) & mask == mask) by (bit_vector);
        assert((x & !mask) & mask == 0) by (bit_vector);
        assert((x | mask) & !mask == x & !mask) by (bit_vector);
        assert((x & !mask) & !mask == x & !mask) by (bit_vector);
        assert((x ^ mask) ^ mask == x) by (bit_vector);
        assert((x ^ mask) & !mask == x & !mask) by (bit_vector);
        assert(((x ^ mask) & mask == mask) == (x & mask == 0)) by (bit_vector);
        assert((x | mask) | mask == x | mask) by (bit_vector);
        assert((x ^ mask) & mask == !x & mask) by (bit_vector);
    }

    fn bit_and(self, other: u8) -> (r: u8) {
        self & other
    }

    fn bit_or(self, other: u8) -> (r: u8) {
        self | other
    }

    fn bit_xor(self, other: u8) -> (r: u8) {
        self ^ other
    }

    fn bit_not(self) -> (r: u8) {
        !self
    }

    fn same(self, other: u8) -> (r: bool) {
        self == other
    }
}

impl FlagWord for u16 {
    open spec fn zero() -> u16 {
        0
    }

    open spec fn spec_and(self, other: u16) -> u16 {
        self & other
    }

    open spec fn spec_or(self, other: u16) -> u16 {
        self | other
    }

    open spec fn spec_xor(self, other: u16) -> u16 {
        self ^ other
    }

    open spec fn spec_not(self) -> u16 {
        !self
    }

    proof fn lemma_bits(x: u16, mask: u16) {
        assert((x | mask) & mask == mask) by (bit_vector);
        assert((x & !mask) & mask == 0) by (bit_vector);
        assert((x | mask) & !mask == x & !mask) by (bit_vector);
        assert((x & !mask) & !mask == x & !mask) by (bit_vector);
        assert((x ^ mask) ^ mask == x) by (bit_vector);
        assert((x ^ mask) & !mask == x & !mask) by (bit_vector);
        assert(((x ^ mask) & mask == mask) == (x & mask == 0)) by (bit_vector);
        assert((x | mask) | mask == x | mask) by (bit_vector);
        assert((x ^ mask) & mask == !x & mask) by (bit_vector);
    }

    fn bit_and(self, other: u16) -> (r: u16) {
        self & other
    }

    fn bit_or(self, other: u16) -> (r: u16) {
        self | other
    }

    fn bit_xor(self, other: u16) -> (r: u16) {
        self ^ other
    }

    fn bit_not(self) -> (r: u16) {
        !self
    }

    fn same(self, other: u16) -> (r: bool) {
        self == other
    }
}

impl FlagWord for u32 {
    open spec fn zero() -> u32 {
        0
    }

    open spec fn spec_and(self, other: u32) -> u32 {
        self & other
    }

    open spec fn spec_or(self, other: u32) -> u32 {
        self | other
    }

    open spec fn spec_xor(self, other: u32) -> u32 {
        self ^ other
    }

    open spec fn spec_not(self) -> u32 {
        !self
    }

    proof fn lemma_bits(x: u32, mask: u32) {
        assert((x | mask) & mask == mask) by (bit_vector);
        assert((x & !mask) & mask == 0) by (bit_vector);
        assert((x | mask) & !mask == x & !mask) by (bit_vector);
        assert((x & !mask) & !mask == x & !mask) by (bit_vector);
        assert((x ^ mask) ^ mask == x) by (bit_vector);
        assert((x ^ mask) & !mask == x & !mask) by (bit_vector);
        assert(((x ^ mask) & mask == mask) == (x & mask == 0)) by (bit_vector);
        assert((x | mask) | mask == x | mask) by (bit_vector);
        assert((x ^ mask) & mask == !x & mask) by (bit_vector);
    }

    fn bit_and(self, other: u32) -> (r: u32) {
        self & other
    }

    fn bit_or(self, other: u32) -> (r: u32) {
        self | other
    }

    fn bit_xor(self, other: u32) -> (r: u32) {
        self ^ other
    }

    fn bit_not(self) -> (r: u32) {
        !self
    }

    fn same(self, other: u32) -> (r: bool) {
        self == other
    }
}

impl FlagWord for u64 {
    open spec fn zero() -> u64 {
        0
    }

    open spec fn spec_and(self, other: u64) -> u64 {
        self & other
    }

    open spec fn spec_or(self, other: u64) -> u64 {
        self | other
    }

    open spec fn spec_xor(self, other: u64) -> u64 {
        self ^ other
    }

    open spec fn spec_not(self) -> u64 {
        !self
    }

    proof fn lemma_bits(x: u64, mask: u64) {
        assert((x | mask) & mask == mask) by (bit_vector);
        assert((x & !mask) & mask == 0) by (bit_vector);
        assert((x | mask) & !mask == x & !mask) by (bit_vector);
        assert((x & !mask) & !mask == x & !mask) by (bit_vector);
        assert((x ^ mask) ^ mask == x) by (bit_vector);
        assert((x ^ mask) & !mask == x & !mask) by (bit_vector);
        assert(((x ^ mask) & mask == mask) == (x & mask == 0)) by (bit_vector);
        assert((x | mask) | mask == x | mask) by (bit_vector);
        assert((x ^ mask) & mask == !x & mask) by (bit_vector);
    }

    fn bit_and(self, other: u64) -> (r: u64) {
        self & other
    }

    fn bit_or(self, other: u64) -> (r: u64) {
        self | other
    }

    fn bit_xor(self, other: u64) -> (r: u64) {
        self ^ other
    }

    fn bit_not(self) -> (r: u64) {
        !self
    }

    fn same(self, other: u64) -> (r: bool) {
        self == other
    }
}

/// What a flag is made of: the chain to its number, and the bits that make it.
pub struct Flag<T> {
    pub chain: Chain,
    pub mask: T,
}

/// Some bits of a number at the end of a chain of pointers, seen as one flag.
#[derive(Debug)]
pub struct Bitflag<T> {
    chain: PointerChain<T>,
    mask: T,
}

impl<T> View for Bitflag<T> {
    type V = Flag<T>;

    closed spec fn view(&self) -> Flag<T> {
        Flag { chain: self.chain@, mask: self.mask }
    }
}

impl<T: Copy> Clone for Bitflag<T> {
    /// The same flag once more.
    fn clone(&self) -> (made: Bitflag<T>)
        ensures
            made@ == self@,
    {
        Bitflag { chain: self.chain.clone(), mask: self.mask }
    }
}

/// The flag is up in `word`: all bits of `mask` are set.
pub open spec fn is_up<T: FlagWord>(word: T, mask: T) -> bool {
    word.spec_and(mask) == mask
}

/// `word` with the flag put up or down: all bits of `mask` set, or all of
/// them cleared, and the others as they were.
pub open spec fn with_flag<T: FlagWord>(word: T, mask: T, up: bool) -> T {
    if up {
        word.spec_or(mask)
    } else {
        word.spec_and(mask.spec_not())
    }
}

/// `word` with every bit of `mask` turned over, and the others as they were.
pub open spec fn turned<T: FlagWord>(word: T, mask: T) -> T {
    word.spec_xor(mask)
}

/// The first `k` accesses of `t` are a read through `chain` that brought
/// `word`, and the rest is a write of `next` through it.
pub open spec fn is_change_at<T: FlagWord>(
    chain: Chain,
    t: Seq<Access>,
    k: int,
    word: T,
    next: T,
    done: bool,
) -> bool {
    &&& 0 <= k <= t.len()
    &&& is_fetch(chain, T::width(), t.take(k))
    &&& typed::<T>(fetched(chain, T::width(), t.take(k))) == Some(word)
    &&& is_send(chain, next.image(), t.skip(k), done)
}

/// `t` is a read through `chain` that failed, and nothing else: no write was
/// tried.
pub open spec fn is_failed_fetch<T: FlagWord>(chain: Chain, t: Seq<Access>) -> bool {
    &&& is_fetch(chain, T::width(), t)
    &&& fetched(chain, T::width(), t) is None
}

/// `word` after a change: with the bits of `mask` turned over if `turn`, else
/// with the flag put up or down as `up` tells.
pub open spec fn changed<T: FlagWord>(word: T, mask: T, turn: bool, up: bool) -> T {
    if turn {
        turned(word, mask)
    } else {
        with_flag(word, mask, up)
    }
}

/// `t` is what a change of the flag does, and `reported` is whether it is
/// reported as done: one read of the number and, unless it failed, one write
/// of the number as changed.
///
/// A read that failed ends the change: nothing is written, and the change
/// counts as done. Where the read brought the number, the change is done if
/// and only if the write was: a write that was refused, and one that was not
/// made because the chain could not be walked again, are failures.
pub open spec fn is_change<T: FlagWord>(
    flag: Flag<T>,
    turn: bool,
    up: bool,
    t: Seq<Access>,
    reported: bool,
) -> bool {
    ||| is_failed_fetch::<T>(flag.chain, t) && reported
    ||| exists|k: int, word: T, done: bool| #[trigger]
        is_change_at(flag.chain, t, k, word, changed(word, flag.mask, turn, up), done)
            && reported == done
}

/// `t` is what putting the flag up or down does, and `reported` is whether
/// it is reported as done.
pub open spec fn is_set<T: FlagWord>(
    flag: Flag<T>,
    up: bool,
    t: Seq<Access>,
    reported: bool,
) -> bool {
    is_change(flag, false, up, t, reported)
}

/// `t` is what turning the flag over does, and `reported` is whether it is
/// reported as done.
pub open spec fn is_toggle<T: FlagWord>(flag: Flag<T>, t: Seq<Access>, reported: bool) -> bool {
    is_change(flag, true, false, t, reported)
}

/// The number of the flag in `m`.
pub open spec fn word_in<T: FlagWord>(m: Memory, flag: Flag<T>) -> Option<T> {
    typed::<T>(fetch_in(m, flag.chain, T::width()))
}

/// Whether the flag is up in `m`; `None` if its number cannot be read.
pub open spec fn get_in<T: FlagWord>(m: Memory, flag: Flag<T>) -> Option<bool> {
    match word_in(m, flag) {
        Some(word) => Some(is_up(word, flag.mask)),
        None => None,
    }
}

/// `m` after the flag was put up or down; `m` itself if its number cannot be
/// read.
pub open spec fn set_in<T: FlagWord>(m: Memory, flag: Flag<T>, up: bool) -> Memory {
    match word_in(m, flag) {
        Some(word) => send_in(m, flag.chain, with_flag(word, flag.mask, up).image()),
        None => m,
    }
}

/// `m` after the flag was turned over; `m` itself if its number cannot be
/// read.
pub open spec fn toggle_in<T: FlagWord>(m: Memory, flag: Flag<T>) -> Memory {
    match word_in(m, flag) {
        Some(word) => send_in(m, flag.chain, turned(word, flag.mask).image()),
        None => m,
    }
}

/// A flag that was put up is up, one that was put down is down, and the bits
/// outside the mask are as before.
///
/// This holds where the number can be read and the chain leads to the same
/// address after the change as before. A flag without any bit in its mask
/// counts as up whatever the number holds, so nothing puts it down.
pub proof fn lemma_set_then_get<T: FlagWord>(m: Memory, flag: Flag<T>, up: bool)
    requires
        word_in(m, flag) is Some,
        resolve(set_in(m, flag, up), flag.chain) == resolve(m, flag.chain),
        !up ==> flag.mask != T::zero(),
    ensures
        get_in(set_in(m, flag, up), flag) == Some(up),
        word_in(set_in(m, flag, up), flag) is Some,
        word_in(set_in(m, flag, up), flag).unwrap().spec_and(flag.mask.spec_not()) == word_in(
            m,
            flag,
        ).unwrap().spec_and(flag.mask.spec_not()),
{
    let word = word_in(m, flag).unwrap();
    let next = with_flag(word, flag.mask, up);
    T::lemma_bits(word, flag.mask);
    lemma_write_then_read(m, flag.chain, next);
}

/// Putting a flag up or down a second time changes nothing: the number is as
/// the first time left it.
///
/// This holds where the number can be read and the chain leads to the same
/// address before, between and after the two changes.
pub proof fn lemma_set_twice<T: FlagWord>(m: Memory, flag: Flag<T>, up: bool)
    requires
        word_in(m, flag) is Some,
        resolve(set_in(m, flag, up), flag.chain) == resolve(m, flag.chain),
        resolve(set_in(set_in(m, flag, up), flag, up), flag.chain) == resolve(m, flag.chain),
    ensures
        word_in(set_in(set_in(m, flag, up), flag, up), flag) == word_in(
            set_in(m, flag, up),
            flag,
        ),
{
    let word = word_in(m, flag).unwrap();
    let once = set_in(m, flag, up);
    let next = with_flag(word, flag.mask, up);
    T::lemma_bits(word, flag.mask);
    lemma_write_then_read(m, flag.chain, next);
    assert(word_in(once, flag) == Some(next));
    assert(m.dom() =~= once.dom());
    assert(with_flag(next, flag.mask, up) == next);
    lemma_write_then_read(once, flag.chain, next);
}

/// Turning a flag over twice leaves the number as it was.
///
/// This holds where the number can be read and the chain leads to the same
/// address before, between and after the two changes.
pub proof fn lemma_toggle_twice<T: FlagWord>(m: Memory, flag: Flag<T>)
    requires
        word_in(m, flag) is Some,
        resolve(toggle_in(m, flag), flag.chain) == resolve(m, flag.chain),
        resolve(toggle_in(toggle_in(m, flag), flag), flag.chain) == resolve(m, flag.chain),
    ensures
        word_in(toggle_in(toggle_in(m, flag), flag), flag) == word_in(m, flag),
{
    let word = word_in(m, flag).unwrap();
    let once = toggle_in(m, flag);
    T::lemma_bits(word, flag.mask);
    lemma_write_then_read(m, flag.chain, turned(word, flag.mask));
    lemma_write_then_read(once, flag.chain, word);
}

/// Turning a flag over changes whether it is up, where the bits of its mask
/// were all set or all clear, and leaves the bits outside the mask as they
/// were.
pub proof fn lemma_toggle_then_get<T: FlagWord>(m: Memory, flag: Flag<T>)
    requires
        word_in(m, flag) is Some,
        resolve(toggle_in(m, flag), flag.chain) == resolve(m, flag.chain),
    ensures
        word_in(toggle_in(m, flag), flag) == Some(turned(word_in(m, flag).unwrap(), flag.mask)),
        get_in(toggle_in(m, flag), flag) == Some(
            word_in(m, flag).unwrap().spec_and(flag.mask) == T::zero(),
        ),
        word_in(toggle_in(m, flag), flag).unwrap().spec_and(flag.mask.spec_not()) == word_in(
            m,
            flag,
        ).unwrap().spec_and(flag.mask.spec_not()),
{
    let word = word_in(m, flag).unwrap();
    T::lemma_bits(word, flag.mask);
    lemma_write_then_read(m, flag.chain, turned(word, flag.mask));
}

/// The accesses of a change that belong to its read: the walk of the chain
/// and the one read after it.
pub open spec fn read_part(chain: Chain, t: Seq<Access>) -> Seq<Access> {
    if t.len() <= chain.offsets.len() + 1 {
        t
    } else {
        t.take(chain.offsets.len() as int + 1)
    }
}

/// A change whose read failed has written nothing, and is reported as done:
/// every access it made is a read, and in a memory nothing has changed.
pub proof fn lemma_failed_read_writes_nothing<T: FlagWord>(
    m: Memory,
    flag: Flag<T>,
    turn: bool,
    up: bool,
    t: Seq<Access>,
    reported: bool,
)
    requires
        is_change(flag, turn, up, t, reported),
        fetched(flag.chain, T::width(), read_part(flag.chain, t)) is None,
    ensures
        reported,
        forall|i: int| 0 <= i < t.len() ==> #[trigger] t[i] is Read,
        word_in(m, flag) is None ==> set_in(m, flag, up) == m && toggle_in(m, flag) == m,
{
    let n = flag.chain.offsets.len() as int;
    if is_failed_fetch::<T>(flag.chain, t) {
        if t.len() == n + 1 {
            lemma_walk_len(flag.chain, t.take(n), Some(reached(flag.chain, t, n)));
            assert forall|i: int| 0 <= i < t.len() implies #[trigger] t[i] is Read by {
                if i < n {
                    assert(t.take(n)[i] == t[i]);
                }
            }
        } else {
            lemma_walk_len(flag.chain, t, None);
        }
    } else {
        let (k, word, done) = choose|k: int, word: T, done: bool| #[trigger]
            is_change_at(flag.chain, t, k, word, changed(word, flag.mask, turn, up), done)
                && reported == done;
        assert(t.take(k).len() == n + 1);
        assert(read_part(flag.chain, t) =~= t.take(k));
    }
}

/// A change whose read brought the number is reported as done exactly where
/// its write was taken: not where the write was refused, and not where the
/// chain could not be walked again.
pub proof fn lemma_refused_write_is_reported<T: FlagWord>(
    flag: Flag<T>,
    turn: bool,
    up: bool,
    t: Seq<Access>,
    reported: bool,
)
    requires
        is_change(flag, turn, up, t, reported),
        fetched(flag.chain, T::width(), read_part(flag.chain, t)) is Some,
    ensures
        reported == (t.last() matches Access::Write { done: true, .. }),
        read_part(flag.chain, t).len() < t.len(),
{
    let n = flag.chain.offsets.len() as int;
    if is_failed_fetch::<T>(flag.chain, t) {
        assert(read_part(flag.chain, t) =~= t);
    } else {
        let (k, word, done) = choose|k: int, word: T, done: bool| #[trigger]
            is_change_at(flag.chain, t, k, word, changed(word, flag.mask, turn, up), done)
                && reported == done;
        let rest = t.skip(k);
        assert(t.take(k).len() == n + 1);
        if rest.len() == n + 1 {
            assert(rest[n] == t.last());
        } else {
            lemma_walk_len(flag.chain, rest, None);
            assert(rest.last() == t.last());
        }
    }
}

impl<T: FlagWord> Bitflag<T> {
    /// The flag made of the bits of `mask` in the number that `c` leads to.
    pub fn new(c: PointerChain<T>, mask: T) -> (made: Bitflag<T>)
        ensures
            made@ == (Flag { chain: c@, mask }),
    {
        Bitflag { chain: c, mask }
    }

    /// The chain that leads to the number.
    pub fn chain(&self) -> (chain: &PointerChain<T>)
        ensures
            chain@ == self@.chain,
    {
        &self.chain
    }

    /// The bits that make the flag.
    pub fn mask(&self) -> (mask: T)
        ensures
            mask == self@.mask,
    {
        self.mask
    }

    /// Reads the number and writes it back as changed: what `set` and
    /// `toggle` have in common.
    fn change<M: ProcessMemory>(&self, mem: &mut M, turn: bool, up: bool) -> (done: Option<()>)
        ensures
            continues(*old(mem), *final(mem)),
            is_change(self@, turn, up, added(*old(mem), *final(mem)), done is Some),
            old(mem).memory() matches Some(m) ==> done is Some && final(mem).memory() == Some(
                if turn {
                    toggle_in(m, self@)
                } else {
                    set_in(m, self@, up)
                },
            ) && answered_from(m, added(*old(mem), *final(mem))),
    {
        let ghost pre = *mem;
        let word: T = match self.chain.read(mem) {
            Some(word) => word,
            None => {
                return Some(());
            },
        };
        let ghost mid = *mem;
        let next: T = if turn {
            word.bit_xor(self.mask)
        } else if up {
            word.bit_or(self.mask)
        } else {
            word.bit_and(self.mask.bit_not())
        };
        let done = self.chain.write(mem, next);
        proof {
            lemma_continues_trans(pre, mid, *mem);
            let t1 = added(pre, mid);
            let t = added(pre, *mem);
            let k = t1.len() as int;
            assert(t.take(k) =~= t1);
            assert(t.skip(k) =~= added(mid, *mem));
            assert(is_change_at(
                self@.chain,
                t,
                k,
                word,
                changed(word, self@.mask, turn, up),
                done is Some,
            ));
            if pre.memory() is Some {
                lemma_answered_both(pre.memory().unwrap(), t1, added(mid, *mem));
            }
        }
        done
    }

    /// Turns the flag over: every bit of the mask changes, no other does.
    ///
    /// The number is read and then written, as two accesses: what another
    /// writer does between them is lost. If the read fails nothing is written
    /// and nothing is reported: the result is `Some`. Where the read brought
    /// the number, the result is `None` if the number was not written back.
    pub fn toggle<M: ProcessMemory>(&self, mem: &mut M) -> (done: Option<()>)
        ensures
            continues(*old(mem), *final(mem)),
            is_toggle(self@, added(*old(mem), *final(mem)), done is Some),
            old(mem).memory() matches Some(m) ==> done is Some && final(mem).memory() == Some(
                toggle_in(m, self@),
            ) && answered_from(m, added(*old(mem), *final(mem))),
    {
        self.change(mem, true, false)
    }

    /// Whether the flag is up: whether all bits of the mask are set. `None`
    /// if the number cannot be read.
    pub fn get<M: ProcessMemory>(&self, mem: &mut M) -> (up: Option<bool>)
        ensures
            continues(*old(mem), *final(mem)),
            is_fetch(self@.chain, T::width(), added(*old(mem), *final(mem))),
            up == match typed::<T>(
                fetched(self@.chain, T::width(), added(*old(mem), *final(mem))),
            ) {
                Some(word) => Some(is_up(word, self@.mask)),
                None => None,
            },
            old(mem).memory() matches Some(m) ==> up == get_in(m, self@) && final(mem).memory()
                == Some(m) && answered_from(m, added(*old(mem), *final(mem))),
    {
        match self.chain.read(mem) {
            Some(word) => Some(word.bit_and(self.mask).same(self.mask)),
            None => None,
        }
    }

    /// Puts the flag up (all bits of the mask set) or down (all of them
    /// cleared).
    ///
    /// The number is read and then written, as two accesses: what another
    /// writer does between them is lost. If the read fails nothing is written
    /// and nothing is reported: the result is `Some`. Where the read brought
    /// the number, the result is `None` if the number was not written back.
    pub fn set<M: ProcessMemory>(&self, mem: &mut M, flag: bool) -> (done: Option<()>)
        ensures
            continues(*old(mem), *final(mem)),
            is_set(self@, flag, added(*old(mem), *final(mem)), done is Some),
            old(mem).memory() matches Some(m) ==> done is Some && final(mem).memory() == Some(
                set_in(m, self@, flag),
            ) && answered_from(m, added(*old(mem), *final(mem))),
    {
        self.change(mem, false, flag)
    }
}

} // verus!
