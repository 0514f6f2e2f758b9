//! An address space held in the caller's own memory: a process that stands
//! still. It serves to try chains and flags on a captured image, and to tell
//! what the library asks of a process, access by access.

use crate::layout::FixedLayout;
use crate::memory::{bytes_at, mapped, store, Access, Memory, ProcessMemory};
use std::collections::HashMap;
use vstd::prelude::*;
use vstd::std_specs::hash::group_hash_axioms;

verus! {

broadcast use group_hash_axioms;

/// One access as the simulated process has recorded it.
pub enum Record {
    /// `len` bytes were asked for at `addr`; `got` is what was handed out.
    Read { addr: usize, len: usize, got: Option<Vec<u8>> },
    /// `data` was sent to `addr`; `done` tells whether it was taken.
    Write { addr: usize, data: Vec<u8>, done: bool },
}

impl View for Record {
    type V = Access;

    open spec fn view(&self) -> Access {
        match *self {
            Record::Read { addr, len, got } => Access::Read {
                addr,
                len,
                got: match got {
                    Some(bytes) => Some(bytes@),
                    None => None,
                },
            },
            Record::Write { addr, data, done } => Access::Write { addr, data: data@, done },
        }
    }
}

/// A process whose memory is the bytes put into it, and which nothing but the
/// accesses made through it changes. An address that holds no byte is
/// refused, as is an access that reaches such an address.
pub struct SimulatedProcess {
    cells: HashMap<usize, u8>,
    log: Vec<Record>,
}

/// The accesses that a log records.
pub open spec fn accesses_of(log: Seq<Record>) -> Seq<Access> {
    Seq::new(log.len(), |i: int| log[i]@)
}

/// `m` with `bytes` put at `addr`, whether the addresses held a byte before
/// or not.
pub open spec fn with_bytes(m: Memory, addr: usize, bytes: Seq<u8>) -> Memory {
    Map::new(
        |a: usize| m.dom().contains(a) || addr <= a < addr + bytes.len(),
        |a: usize|
            if addr <= a < addr + bytes.len() {
                bytes[a - addr]
            } else {
                m[a]
            },
    )
}

impl SimulatedProcess {
    /// The bytes held, by address.
    pub closed spec fn contents(&self) -> Memory {
        self.cells@
    }

    /// The accesses recorded, oldest first.
    pub closed spec fn recorded(&self) -> Seq<Record> {
        self.log@
    }

    /// A process without any memory, of which nothing was asked yet.
    pub fn new() -> (made: SimulatedProcess)
        ensures
            made.contents() == Map::<usize, u8>::empty(),
            made.recorded() == Seq::<Record>::empty(),
    {
        SimulatedProcess { cells: HashMap::new(), log: Vec::new() }
    }

    /// Puts `bytes` at `addr`, making the addresses valid where they were
    /// not. This is no access: nothing is recorded. Returns `false`, and
    /// changes nothing, if the bytes would reach past the last address.
    pub fn place(&mut self, addr: usize, bytes: &[u8]) -> (done: bool)
        ensures
            done == (addr + bytes@.len() <= usize::MAX + 1),
            final(self).recorded() == old(self).recorded(),
            final(self).contents() == if done {
                with_bytes(old(self).contents(), addr, bytes@)
            } else {
                old(self).contents()
            },
    {
        if bytes.len() > 0 && addr > usize::MAX - (bytes.len() - 1) {
            return false;
        }
        let ghost m = self.cells@;
        let mut i: usize = 0;
        while i < bytes.len()
            invariant
                i <= bytes@.len(),
                addr + bytes@.len() <= usize::MAX + 1,
                self.log@ == old(self).log@,
                self.cells@ == with_bytes(m, addr, bytes@.take(i as int)),
            decreases bytes@.len() - i,
        {
            self.cells.insert(addr + i, bytes[i]);
            i = i + 1;
        }
        true
    }

    /// Puts the bytes of `value` at `addr`, as `place` does.
    pub fn place_value<T: FixedLayout>(&mut self, addr: usize, value: T) -> (done: bool)
        ensures
            done == (addr + T::width() <= usize::MAX + 1),
            final(self).recorded() == old(self).recorded(),
            final(self).contents() == if done {
                with_bytes(old(self).contents(), addr, value.image())
            } else {
                old(self).contents()
            },
    {
        proof {
            T::lemma_image(&value);
        }
        let bytes = value.to_bytes();
        self.place(addr, bytes.as_slice())
    }

    /// The byte held at `addr`, if there is one. This is no access: nothing
    /// is recorded.
    pub fn peek(&self, addr: usize) -> (byte: Option<u8>)
        ensures
            byte == if self.contents().dom().contains(addr) {
                Some(self.contents()[addr])
            } else {
                None
            },
    {
        match self.cells.get(&addr) {
            Some(byte) => Some(*byte),
            None => None,
        }
    }

    /// The accesses recorded, oldest first.
    pub fn log(&self) -> (log: &Vec<Record>)
        ensures
            log@ == self.recorded(),
    {
        &self.log
    }
}

impl ProcessMemory for SimulatedProcess {
    open spec fn accesses(&self) -> Seq<Access> {
        accesses_of(self.recorded())
    }

    open spec fn memory(&self) -> Option<Memory> {
        Some(self.contents())
    }

    fn read_memory(&mut self, addr: usize, len: usize) -> (got: Option<Vec<u8>>) {
        let ghost m = self.cells@;
        let ghost before = self.log@;
        let mut bytes: Vec<u8> = Vec::new();
        let mut kept: Vec<u8> = Vec::new();
        let mut whole: bool = true;
        let mut i: usize = 0;
        while whole && i < len
            invariant
                i <= len,
                self.cells@ == m,
                self.log@ == before,
                whole ==> mapped(m, addr, i as nat) && bytes@ == bytes_at(m, addr, i as nat),
                kept@ == bytes@,
                !whole ==> !mapped(m, addr, len as nat),
            decreases
                    len - i + if whole {
                        1int
                    } else {
                        0int
                    },
        {
            if addr > usize::MAX - i {
                whole = false;
            } else {
                match self.cells.get(&(addr + i)) {
                    Some(byte) => {
                        bytes.push(*byte);
                        kept.push(*byte);
                        i = i + 1;
                    },
                    None => {
                        whole = false;
                    },
                }
            }
        }
        let record = if whole {
            Record::Read { addr, len, got: Some(kept) }
        } else {
            Record::Read { addr, len, got: None }
        };
        self.log.push(record);
        if whole {
            Some(bytes)
        } else {
            None
        }
    }

    fn write_memory(&mut self, addr: usize, data: &[u8]) -> (done: bool) {
        let ghost m = self.cells@;
        let ghost before = self.log@;
        let mut whole: bool = true;
        let mut kept: Vec<u8> = Vec::new();
        let mut i: usize = 0;
        while i < data.len()
            invariant
                i <= data@.len(),
                self.cells@ == m,
                self.log@ == before,
                kept@ == data@.take(i as int),
                whole ==> mapped(m, addr, i as nat),
                !whole ==> !mapped(m, addr, data@.len()),
            decreases data@.len() - i,
        {
            if addr > usize::MAX - i {
                whole = false;
            } else if !self.cells.contains_key(&(addr + i)) {
                whole = false;
            }
            kept.push(data[i]);
            i = i + 1;
        }
        assert(data@.take(i as int) =~= data@);
        if whole {
            let mut j: usize = 0;
            while j < data.len()
                invariant
                    j <= data@.len(),
                    mapped(m, addr, data@.len()),
                    self.log@ == before,
                    self.cells@ == store(m, addr, data@.take(j as int)),
                decreases data@.len() - j,
            {
                self.cells.insert(addr + j, data[j]);
                j = j + 1;
            }
        }
        let record = Record::Write { addr, data: kept, done: whole };
        self.log.push(record);
        whole
    }
}

} // verus!
