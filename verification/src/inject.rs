//! Loading a module into another process.
//!
//! The module is loaded by the process itself: the path of the module is
//! written into memory of the process, and a thread is started in it whose
//! routine is the loader of the operating system and whose argument is that
//! path. What this module decides is the order of the steps, what is handed
//! to each, and which failure ends the attempt.

use crate::process::{find_first_named, first_named, ProcessEntry};
use vstd::prelude::*;

verus! {

/// One request made of the process that is to load the module, with the
/// answer it gave.
pub enum Call {
    /// `size` bytes of memory were asked for; `got` is where they lie.
    Allocate { size: usize, got: Option<usize> },
    /// `data` was sent to `addr`; `done` tells whether all of it was taken.
    Write { addr: usize, data: Seq<u8>, done: bool },
    /// A thread was asked for that runs the routine at `entry` on `argument`.
    CreateThread { entry: usize, argument: usize, got: Option<usize> },
    /// The end of `thread` was waited for, for `limit` thousandths of a
    /// second at most, or without a limit.
    Wait { thread: usize, limit: Option<u32>, done: bool },
    /// What `thread` returned was asked for.
    ExitCode { thread: usize, code: Option<u32> },
    /// `thread` was let go of.
    CloseThread { thread: usize, done: bool },
    /// The memory at `addr` was given back.
    Free { addr: usize, done: bool },
}

impl Call {
    /// The request was granted.
    pub open spec fn succeeded(self) -> bool {
        match self {
            Call::Allocate { got, .. } => got is Some,
            Call::Write { done, .. } => done,
            Call::CreateThread { got, .. } => got is Some,
            Call::Wait { done, .. } => done,
            Call::ExitCode { code, .. } => code is Some,
            Call::CloseThread { done, .. } => done,
            Call::Free { done, .. } => done,
        }
    }
}

/// What an operating system offers to have memory in a process and to start
/// threads in it. Nothing is taken for granted of an implementation:
/// whatever it answers is an answer. The handle is only ever borrowed: no
/// request closes or replaces it.
pub trait RawTarget {
    /// Asks for `size` bytes of memory that can be read and written.
    fn allocate_raw(&self, size: usize) -> Option<usize>;

    /// Sends `data` to `addr`. `false` unless all of it was taken.
    fn write_raw(&self, addr: usize, data: &[u8]) -> bool;

    /// Starts a thread that runs the routine at `entry` on `argument`.
    fn create_thread_raw(&self, entry: usize, argument: usize) -> Option<usize>;

    /// Waits until `thread` has ended: for `limit` thousandths of a second
    /// at most, or however long that takes where `limit` is `None`.
    fn wait_raw(&self, thread: usize, limit: Option<u32>) -> bool;

    /// Asks what `thread` returned.
    fn exit_code_raw(&self, thread: usize) -> Option<u32>;

    /// Lets go of `thread`.
    fn close_thread_raw(&self, thread: usize) -> bool;

    /// Gives the memory at `addr` back.
    fn free_raw(&self, addr: usize) -> bool;
}

/// The step at which an attempt to load a module ended.
#[derive(Clone, Copy, Debug, PartialEq, Eq, Structural)]
pub enum InjectError {
    /// The address of the loader routine is not known.
    LoaderRoutineNotFound,
    /// The process gave no memory for the path.
    RemoteAllocationFailed,
    /// The path was not written, or not all of it.
    RemoteWriteFailed,
    /// No thread was started.
    ThreadCreationFailed,
    /// The wait for the thread failed.
    WaitFailed,
    /// What the thread returned could not be had.
    ExitCodeFailed,
    /// The thread could not be let go of.
    CloseThreadFailed,
    /// The memory for the path could not be given back.
    FreeFailed,
}

/// The bytes of a path for the loader: each unit lowest byte first, and a
/// unit of zero at the end.
pub open spec fn wide_image(path: Seq<u16>) -> Seq<u8> {
    Seq::new(
        2 * (path.len() + 1),
        |i: int|
            if i / 2 < path.len() {
                if i % 2 == 0 {
                    (path[i / 2] % 256) as u8
                } else {
                    (path[i / 2] / 256) as u8
                }
            } else {
                0u8
            },
    )
}

/// The bytes of a path for the loader.
pub fn wide_bytes(path: &[u16]) -> (bytes: Vec<u8>)
    ensures
        bytes@ == wide_image(path@),
{
    let mut bytes: Vec<u8> = Vec::new();
    let mut i: usize = 0;
    while i < path.len()
        invariant
            i <= path@.len(),
            bytes@.len() == 2 * i,
            forall|j: int| 0 <= j < 2 * i ==> bytes@[j] == wide_image(path@)[j],
        decreases path@.len() - i,
    {
        let unit: u16 = path[i];
        bytes.push((unit % 256) as u8);
        bytes.push((unit / 256) as u8);
        i = i + 1;
    }
    bytes.push(0);
    bytes.push(0);
    bytes
}

/// The memory that the attempt recorded in `t` was given.
pub open spec fn region_of(t: Seq<Call>) -> usize {
    match t[0] {
        Call::Allocate { got: Some(region), .. } => region,
        _ => 0,
    }
}

/// The thread that the attempt recorded in `t` has started.
pub open spec fn thread_of(t: Seq<Call>) -> usize {
    match t[2] {
        Call::CreateThread { got: Some(thread), .. } => thread,
        _ => 0,
    }
}

/// Request `i` of `t` is the one that step `i` of an attempt makes: memory
/// for `data`, `data` sent to that memory, a thread that runs `entry` on
/// that memory, the wait for that thread without a limit, what it returned,
/// letting go of it, and giving the memory back, in this order.
pub open spec fn is_step(entry: usize, data: Seq<u8>, t: Seq<Call>, i: int) -> bool {
    if i == 0 {
        t[i] matches Call::Allocate { size, .. } && size == data.len()
    } else if i == 1 {
        t[i] matches Call::Write { addr, data: sent, .. } && addr == region_of(t) && sent == data
    } else if i == 2 {
        t[i] matches Call::CreateThread { entry: routine, argument, .. } && routine == entry
            && argument == region_of(t)
    } else if i == 3 {
        t[i] matches Call::Wait { thread, limit, .. } && thread == thread_of(t) && limit is None
    } else if i == 4 {
        t[i] matches Call::ExitCode { thread, .. } && thread == thread_of(t)
    } else if i == 5 {
        t[i] matches Call::CloseThread { thread, .. } && thread == thread_of(t)
    } else {
        t[i] matches Call::Free { addr, .. } && addr == region_of(t)
    }
}

/// The failure that an attempt reports when its step `i` was refused.
pub open spec fn failure_at(i: int) -> InjectError {
    if i == 0 {
        InjectError::RemoteAllocationFailed
    } else if i == 1 {
        InjectError::RemoteWriteFailed
    } else if i == 2 {
        InjectError::ThreadCreationFailed
    } else if i == 3 {
        InjectError::WaitFailed
    } else if i == 4 {
        InjectError::ExitCodeFailed
    } else if i == 5 {
        InjectError::CloseThreadFailed
    } else {
        InjectError::FreeFailed
    }
}

/// `t` is the beginning of an attempt in which no step was refused yet.
pub open spec fn in_progress(entry: usize, data: Seq<u8>, t: Seq<Call>) -> bool {
    &&& t.len() <= 7
    &&& forall|i: int| 0 <= i < t.len() ==> is_step(entry, data, t, i)
    &&& forall|i: int| 0 <= i < t.len() ==> (#[trigger] t[i]).succeeded()
}

/// `t` is an attempt to have `data` loaded by the routine at `loader`, and
/// `end` is how it ended.
///
/// Without a loader routine nothing is asked of the process. Else the seven
/// steps are made in their order, each once, up to the first that is
/// refused: that one is the last request made, and it names the failure.
/// What the thread returned plays no part: an attempt in which the thread
/// ended goes on to let go of it and to give the memory back.
pub open spec fn is_injection(
    loader: Option<usize>,
    data: Seq<u8>,
    t: Seq<Call>,
    end: Result<(), InjectError>,
) -> bool {
    match loader {
        None => t.len() == 0 && end == Err::<(), InjectError>(InjectError::LoaderRoutineNotFound),
        Some(entry) => {
            &&& 1 <= t.len() <= 7
            &&& in_progress(entry, data, t.drop_last())
            &&& is_step(entry, data, t, t.len() - 1)
            &&& if t.last().succeeded() {
                t.len() == 7 && end == Ok::<(), InjectError>(())
            } else {
                end == Err::<(), InjectError>(failure_at(t.len() - 1))
            }
        },
    }
}

/// A process, open with what it takes to load a module into it, and the
/// record of what was asked of it.
pub struct Process<R> {
    raw: R,
    seen: Ghost<Seq<Call>>,
}

/// The requests that `post` has seen and `pre` has not.
pub open spec fn asked<R: RawTarget>(pre: Process<R>, post: Process<R>) -> Seq<Call> {
    post.calls().skip(pre.calls().len() as int)
}

/// `post` is `pre` some requests later.
pub open spec fn goes_on<R: RawTarget>(pre: Process<R>, post: Process<R>) -> bool {
    post.calls() == pre.calls() + asked(pre, post)
}

/// One more request, granted, carries an attempt on by one step.
proof fn lemma_step_on<R: RawTarget>(
    entry: usize,
    data: Seq<u8>,
    pre: Process<R>,
    mid: Process<R>,
    post: Process<R>,
    call: Call,
)
    requires
        goes_on(pre, mid),
        in_progress(entry, data, asked(pre, mid)),
        asked(pre, mid).len() < 7,
        post.calls() == mid.calls().push(call),
        is_step(entry, data, asked(pre, mid).push(call), asked(pre, mid).len() as int),
    ensures
        goes_on(pre, post),
        asked(pre, post) == asked(pre, mid).push(call),
        call.succeeded() ==> in_progress(entry, data, asked(pre, post)),
        !call.succeeded() ==> is_injection(
            Some(entry),
            data,
            asked(pre, post),
            Err(failure_at(asked(pre, mid).len() as int)),
        ),
        call.succeeded() && asked(pre, post).len() == 7 ==> is_injection(
            Some(entry),
            data,
            asked(pre, post),
            Ok(()),
        ),
{
    let t = asked(pre, mid);
    let next = t.push(call);
    assert(asked(pre, post) =~= next);
    assert(next.drop_last() =~= t);
    assert forall|i: int| 0 <= i < next.len() implies is_step(entry, data, next, i) by {
        if i < t.len() {
            assert(is_step(entry, data, t, i));
        }
    }
    assert forall|i: int| 0 <= i < t.len() implies (#[trigger] next[i]).succeeded() by {
        assert(next[i] == t[i]);
    }
}

/// An attempt that succeeded has made the seven requests in their order,
/// each once, and each was granted.
pub proof fn lemma_injection_done(
    loader: Option<usize>,
    data: Seq<u8>,
    t: Seq<Call>,
    end: Result<(), InjectError>,
)
    requires
        is_injection(loader, data, t, end),
        end is Ok,
    ensures
        loader is Some,
        t.len() == 7,
        t[0] is Allocate,
        t[1] is Write,
        t[2] is CreateThread,
        t[3] matches Call::Wait { limit, .. } && limit is None,
        t[4] is ExitCode,
        t[5] is CloseThread,
        t[6] is Free,
        forall|i: int| 0 <= i < 7 ==> (#[trigger] t[i]).succeeded(),
{
    let entry = loader.unwrap();
    let before = t.drop_last();
    assert forall|i: int| 0 <= i < 7 implies is_step(entry, data, t, i) && (#[trigger] t[i])
        .succeeded() by {
        if i < 6 {
            assert(is_step(entry, data, before, i));
        }
    }
}

/// An attempt in which no thread was started has asked for memory and has
/// written to it; it has not let go of a thread, and it has not given the
/// memory back.
pub proof fn lemma_injection_without_thread(
    loader: Option<usize>,
    data: Seq<u8>,
    t: Seq<Call>,
    end: Result<(), InjectError>,
)
    requires
        is_injection(loader, data, t, end),
        end == Err::<(), InjectError>(InjectError::ThreadCreationFailed),
    ensures
        t.len() == 3,
        t[0] is Allocate && t[0].succeeded(),
        t[1] is Write && t[1].succeeded(),
        t[2] is CreateThread && !t[2].succeeded(),
        forall|i: int| 0 <= i < t.len() ==> !(#[trigger] t[i] is CloseThread) && !(t[i] is Free),
{
    let entry = loader.unwrap();
    let before = t.drop_last();
    assert(is_step(entry, data, before, 0));
    assert(is_step(entry, data, before, 1));
}

/// What the thread returned plays no part: had it returned `code`, the same
/// requests would have been made, with the same end. In particular the
/// thread is let go of and the memory is given back also where the thread
/// returned zero, which tells that the module was not loaded.
pub proof fn lemma_exit_code_plays_no_part(
    loader: Option<usize>,
    data: Seq<u8>,
    t: Seq<Call>,
    end: Result<(), InjectError>,
    code: u32,
)
    requires
        is_injection(loader, data, t, end),
        t.len() > 4,
        t[4].succeeded(),
    ensures
        t.len() >= 6,
        t[5] is CloseThread,
        t[5].succeeded() ==> t.len() == 7 && t[6] is Free,
        is_injection(
            loader,
            data,
            t.update(4, Call::ExitCode { thread: thread_of(t), code: Some(code) }),
            end,
        ),
{
    let entry = loader.unwrap();
    let before = t.drop_last();
    let other = t.update(4, Call::ExitCode { thread: thread_of(t), code: Some(code) });
    if t.len() == 5 {
        assert(t.last() == t[4]);
    }
    if t.len() == 7 {
        assert(is_step(entry, data, before, 5));
    }
    assert forall|i: int| 0 <= i < other.len() implies is_step(entry, data, other, i) by {
        if i < t.len() - 1 {
            assert(is_step(entry, data, before, i));
        }
    }
    assert forall|i: int| 0 <= i < other.len() - 1 implies (#[trigger] other.drop_last()[i])
        .succeeded() by {
        assert(before[i].succeeded());
    }
    assert forall|i: int| 0 <= i < other.len() - 1 implies is_step(
        entry,
        data,
        other.drop_last(),
        i,
    ) by {
        assert(is_step(entry, data, other, i));
    }
    if t.len() == 6 {
        assert(t.last() == t[5]);
    }
}

impl<R> Process<R> {
    /// Picks the process to open: the number of the first process of
    /// `entries` whose program has the name `name`, unit by unit. `None` if
    /// no such process runs.
    pub fn get_process_by_name(name: &[u16], entries: &[ProcessEntry]) -> (found: Option<u32>)
        ensures
            found == first_named(entries@, name@),
    {
        find_first_named(entries, name)
    }
}

impl<R: RawTarget> Process<R> {
    /// What the process is reached through.
    pub closed spec fn inner(&self) -> R {
        self.raw
    }

    /// The requests made of the process so far, oldest first.
    pub closed spec fn calls(&self) -> Seq<Call> {
        self.seen@
    }

    /// The process that `handle` gives access to, of which nothing was asked
    /// yet.
    pub fn new(handle: R) -> (made: Process<R>)
        ensures
            made.inner() == handle,
            made.calls() == Seq::<Call>::empty(),
    {
        Process { raw: handle, seen: Ghost(Seq::empty()) }
    }

    /// The handle of the process.
    pub fn handle(&self) -> (handle: &R)
        ensures
            *handle == self.inner(),
    {
        &self.raw
    }

    /// Asks for `size` bytes of memory.
    fn allocate(&mut self, size: usize) -> (got: Option<usize>)
        ensures
            final(self).calls() == old(self).calls().push(Call::Allocate { size, got }),
            final(self).inner() == old(self).inner(),
    {
        let got = self.raw.allocate_raw(size);
        proof {
            self.seen@ = self.seen@.push(Call::Allocate { size, got });
        }
        got
    }

    /// Sends `data` to `addr`.
    fn write(&mut self, addr: usize, data: &[u8]) -> (done: bool)
        ensures
            final(self).calls() == old(self).calls().push(
                Call::Write { addr, data: data@, done },
            ),
            final(self).inner() == old(self).inner(),
    {
        let done = self.raw.write_raw(addr, data);
        proof {
            self.seen@ = self.seen@.push(Call::Write { addr, data: data@, done });
        }
        done
    }

    /// Starts a thread that runs the routine at `entry` on `argument`.
    fn create_thread(&mut self, entry: usize, argument: usize) -> (got: Option<usize>)
        ensures
            final(self).calls() == old(self).calls().push(
                Call::CreateThread { entry, argument, got },
            ),
            final(self).inner() == old(self).inner(),
    {
        let got = self.raw.create_thread_raw(entry, argument);
        proof {
            self.seen@ = self.seen@.push(Call::CreateThread { entry, argument, got });
        }
        got
    }

    /// Waits until `thread` has ended, however long that takes.
    fn wait(&mut self, thread: usize) -> (done: bool)
        ensures
            final(self).calls() == old(self).calls().push(
                Call::Wait { thread, limit: None, done },
            ),
            final(self).inner() == old(self).inner(),
    {
        let done = self.raw.wait_raw(thread, None);
        proof {
            self.seen@ = self.seen@.push(Call::Wait { thread, limit: None, done });
        }
        done
    }

    /// Asks what `thread` returned.
    fn exit_code(&mut self, thread: usize) -> (code: Option<u32>)
        ensures
            final(self).calls() == old(self).calls().push(Call::ExitCode { thread, code }),
            final(self).inner() == old(self).inner(),
    {
        let code = self.raw.exit_code_raw(thread);
        proof {
            self.seen@ = self.seen@.push(Call::ExitCode { thread, code });
        }
        code
    }

    /// Lets go of `thread`.
    fn close_thread(&mut self, thread: usize) -> (done: bool)
        ensures
            final(self).calls() == old(self).calls().push(Call::CloseThread { thread, done }),
            final(self).inner() == old(self).inner(),
    {
        let done = self.raw.close_thread_raw(thread);
        proof {
            self.seen@ = self.seen@.push(Call::CloseThread { thread, done });
        }
        done
    }

    /// Gives the memory at `addr` back.
    fn free(&mut self, addr: usize) -> (done: bool)
        ensures
            final(self).calls() == old(self).calls().push(Call::Free { addr, done }),
            final(self).inner() == old(self).inner(),
    {
        let done = self.raw.free_raw(addr);
        proof {
            self.seen@ = self.seen@.push(Call::Free { addr, done });
        }
        done
    }

    /// Has the process load the module at `dll_path`, a path in the units of
    /// the operating system, by the loader routine at `loader`.
    ///
    /// The steps are made in order, and the first that is refused ends the
    /// attempt with its failure: what was had before it is not given back.
    /// The wait for the thread has no limit. What the thread returned is
    /// asked for and plays no part in what follows. The handle of the process
    /// is the same after the attempt as before, however it ended.
    pub fn inject(&mut self, loader: Option<usize>, dll_path: &[u16]) -> (end: Result<
        (),
        InjectError,
    >)
        ensures
            goes_on(*old(self), *final(self)),
            is_injection(loader, wide_image(dll_path@), asked(*old(self), *final(self)), end),
            final(self).inner() == old(self).inner(),
    {
        let ghost pre = *self;
        let ghost data = wide_image(dll_path@);
        let entry: usize = match loader {
            Some(entry) => entry,
            None => {
                return Err(InjectError::LoaderRoutineNotFound);
            },
        };
        let bytes = wide_bytes(dll_path);

        let ghost mid = *self;
        let got = self.allocate(bytes.len());
        proof {
            lemma_step_on(entry, data, pre, mid, *self, Call::Allocate { size: bytes.len(), got });
        }
        let region: usize = match got {
            Some(region) => region,
            None => {
                return Err(InjectError::RemoteAllocationFailed);
            },
        };

        let ghost mid = *self;
        let done = self.write(region, bytes.as_slice());
        proof {
            lemma_step_on(
                entry,
                data,
                pre,
                mid,
                *self,
                Call::Write { addr: region, data: bytes@, done },
            );
        }
        if !done {
            return Err(InjectError::RemoteWriteFailed);
        }

        let ghost mid = *self;
        let got = self.create_thread(entry, region);
        proof {
            lemma_step_on(
                entry,
                data,
                pre,
                mid,
                *self,
                Call::CreateThread { entry, argument: region, got },
            );
        }
        let thread: usize = match got {
            Some(thread) => thread,
            None => {
                return Err(InjectError::ThreadCreationFailed);
            },
        };

        let ghost mid = *self;
        let done = self.wait(thread);
        proof {
            lemma_step_on(
                entry,
                data,
                pre,
                mid,
                *self,
                Call::Wait { thread, limit: None, done },
            );
        }
        if !done {
            return Err(InjectError::WaitFailed);
        }

        let ghost mid = *self;
        let code = self.exit_code(thread);
        proof {
            lemma_step_on(entry, data, pre, mid, *self, Call::ExitCode { thread, code });
        }
        if code.is_none() {
            return Err(InjectError::ExitCodeFailed);
        }

        let ghost mid = *self;
        let done = self.close_thread(thread);
        proof {
            lemma_step_on(entry, data, pre, mid, *self, Call::CloseThread { thread, done });
        }
        if !done {
            return Err(InjectError::CloseThreadFailed);
        }

        let ghost mid = *self;
        let done = self.free(region);
        proof {
            lemma_step_on(entry, data, pre, mid, *self, Call::Free { addr: region, done });
        }
        if !done {
            return Err(InjectError::FreeFailed);
        }
        Ok(())
    }
}

} // verus!
