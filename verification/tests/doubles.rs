use std::cell::{Cell, RefCell};

use memedit::bitflag::Bitflag;
use memedit::chain::PointerChain;
use memedit::inject::{InjectError, Process, RawTarget};
use memedit::memory::{Live, RawMemory};

/// A process that counts what it is asked, grants the first `reads` reads
/// with bytes of `fill`, refuses the reads after them, and takes a write or
/// not as `takes` tells.
struct Counting {
    grants: usize,
    fill: u8,
    short: bool,
    takes: bool,
    reads: Cell<usize>,
    writes: Cell<usize>,
    written: RefCell<Vec<(usize, Vec<u8>)>>,
}

impl Counting {
    fn new(grants: usize, fill: u8, takes: bool) -> Live<Counting> {
        Live::new(Counting {
            grants,
            fill,
            short: false,
            takes,
            reads: Cell::new(0),
            writes: Cell::new(0),
            written: RefCell::new(Vec::new()),
        })
    }

    fn short() -> Live<Counting> {
        Live::new(Counting {
            grants: usize::MAX,
            fill: 0,
            short: true,
            takes: true,
            reads: Cell::new(0),
            writes: Cell::new(0),
            written: RefCell::new(Vec::new()),
        })
    }
}

impl RawMemory for Counting {
    fn read_raw(&self, _addr: usize, len: usize) -> Option<Vec<u8>> {
        self.reads.set(self.reads.get() + 1);
        if self.reads.get() > self.grants {
            None
        } else if self.short {
            Some(vec![self.fill; len.saturating_sub(1)])
        } else {
            Some(vec![self.fill; len])
        }
    }

    fn write_raw(&self, addr: usize, data: &[u8]) -> bool {
        self.writes.set(self.writes.get() + 1);
        if self.takes {
            self.written.borrow_mut().push((addr, data.to_vec()));
        }
        self.takes
    }
}

fn flag() -> Bitflag<u8> {
    Bitflag::new(PointerChain::new(&[0x10]), 0b0100)
}

#[test]
fn set_and_toggle_make_no_write_when_the_process_refuses_the_read() {
    let mut process = Counting::new(0, 0, true);
    let flag = flag();
    assert_eq!(flag.set(&mut process, true), Some(()));
    assert_eq!(flag.set(&mut process, false), Some(()));
    assert_eq!(flag.toggle(&mut process), Some(()));
    assert_eq!(flag.get(&mut process), None);
    assert_eq!(process.raw().reads.get(), 4);
    assert_eq!(process.raw().writes.get(), 0);
}

#[test]
fn set_and_toggle_report_a_write_back_that_is_refused() {
    let mut process = Counting::new(usize::MAX, 0b0001, false);
    let flag = flag();
    assert_eq!(flag.set(&mut process, true), None);
    assert_eq!(flag.set(&mut process, false), None);
    assert_eq!(flag.toggle(&mut process), None);
    assert_eq!(process.raw().reads.get(), 3);
    assert_eq!(process.raw().writes.get(), 3);
}

#[test]
fn set_and_toggle_report_a_chain_that_cannot_be_walked_again() {
    let flag = Bitflag::<u8>::new(PointerChain::new(&[0x10, 0x20]), 0b0100);
    let mut process = Counting::new(2, 0, true);
    assert_eq!(flag.set(&mut process, true), None);
    assert_eq!(process.raw().reads.get(), 3);
    assert_eq!(process.raw().writes.get(), 0);
    let mut process = Counting::new(2, 0, true);
    assert_eq!(flag.toggle(&mut process), None);
    assert_eq!(process.raw().writes.get(), 0);
}

#[test]
fn set_and_toggle_report_a_write_back_that_is_taken() {
    let mut process = Counting::new(usize::MAX, 0b0001, true);
    let flag = flag();
    assert_eq!(flag.set(&mut process, true), Some(()));
    assert_eq!(flag.toggle(&mut process), Some(()));
    assert_eq!(flag.set(&mut process, false), Some(()));
    let written = process.raw().written.borrow().clone();
    assert_eq!(written, vec![(0x10, vec![0b0101]), (0x10, vec![0b0101]), (0x10, vec![0b0001])]);
}

#[test]
fn walk_makes_no_read_after_the_one_that_was_refused() {
    let mut process = Counting::new(0, 0, true);
    let chain = PointerChain::<u32>::new(&[0x10, 0x20, 0x30, 0x40]);
    assert_eq!(chain.eval(&mut process), None);
    assert_eq!(process.raw().reads.get(), 1);
    assert_eq!(chain.write(&mut process, 9), None);
    assert_eq!(process.raw().writes.get(), 0);
    let mut later = Counting::new(2, 0, true);
    assert_eq!(chain.eval(&mut later), None);
    assert_eq!(later.raw().reads.get(), 3);
}

#[test]
fn read_that_brings_too_few_bytes_has_failed() {
    let mut process = Counting::short();
    let direct = PointerChain::<u32>::new(&[0x10]);
    assert_eq!(direct.read(&mut process), None);
    assert_eq!(process.raw().reads.get(), 1);
    let chain = PointerChain::<u32>::new(&[0x10, 0x20]);
    assert_eq!(chain.eval(&mut process), None);
    assert_eq!(process.raw().reads.get(), 2);
    let flag = Bitflag::<u8>::new(PointerChain::new(&[0x10]), 1);
    assert_eq!(flag.toggle(&mut process), Some(()));
    assert_eq!(process.raw().writes.get(), 0);
}

/// A process that grants everything and counts the waits and the memory
/// given back.
struct Willing {
    freed: RefCell<Vec<usize>>,
    waited: Cell<usize>,
    limits: RefCell<Vec<Option<u32>>>,
}

impl RawTarget for Willing {
    fn allocate_raw(&self, _size: usize) -> Option<usize> {
        Some(0x9000)
    }

    fn write_raw(&self, _addr: usize, _data: &[u8]) -> bool {
        true
    }

    fn create_thread_raw(&self, _entry: usize, _argument: usize) -> Option<usize> {
        Some(3)
    }

    fn wait_raw(&self, _thread: usize, limit: Option<u32>) -> bool {
        self.waited.set(self.waited.get() + 1);
        self.limits.borrow_mut().push(limit);
        true
    }

    fn exit_code_raw(&self, _thread: usize) -> Option<u32> {
        Some(0)
    }

    fn close_thread_raw(&self, _thread: usize) -> bool {
        true
    }

    fn free_raw(&self, addr: usize) -> bool {
        self.freed.borrow_mut().push(addr);
        true
    }
}

#[test]
fn injection_into_a_process_of_the_caller() {
    let willing = Willing {
        freed: RefCell::new(vec![]),
        waited: Cell::new(0),
        limits: RefCell::new(vec![]),
    };
    let mut process = Process::new(willing);
    assert_eq!(process.inject(Some(0x1234), &[0x61]), Ok(()));
    assert_eq!(*process.handle().freed.borrow(), vec![0x9000]);
    assert_eq!(process.handle().waited.get(), 1);
    assert_eq!(*process.handle().limits.borrow(), vec![None]);
    assert_eq!(process.inject(None, &[0x61]), Err(InjectError::LoaderRoutineNotFound));
    assert_eq!(process.handle().waited.get(), 1);
}
