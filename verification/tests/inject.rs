use std::cell::RefCell;

use memedit::inject::{wide_bytes, InjectError, Process, RawTarget};
use memedit::process::ProcessEntry;

/// How each request is to be answered.
#[derive(Clone, Copy)]
struct Script {
    region: Option<usize>,
    write_taken: bool,
    thread: Option<usize>,
    wait_done: bool,
    exit_code: Option<u32>,
    close_done: bool,
    free_done: bool,
}

impl Script {
    fn granting(region: usize, thread: usize, exit_code: u32) -> Script {
        Script {
            region: Some(region),
            write_taken: true,
            thread: Some(thread),
            wait_done: true,
            exit_code: Some(exit_code),
            close_done: true,
            free_done: true,
        }
    }
}

/// One request as the stand-in has recorded it.
#[derive(Clone, Debug, PartialEq)]
enum Request {
    Allocate { size: usize, got: Option<usize> },
    Write { addr: usize, data: Vec<u8>, done: bool },
    CreateThread { entry: usize, argument: usize, got: Option<usize> },
    Wait { thread: usize, limit: Option<u32>, done: bool },
    ExitCode { thread: usize, code: Option<u32> },
    CloseThread { thread: usize, done: bool },
    Free { addr: usize, done: bool },
}

/// A process that answers each request as its script tells, and records it.
struct ScriptedTarget {
    script: Script,
    log: RefCell<Vec<Request>>,
}

impl ScriptedTarget {
    fn new(script: Script) -> ScriptedTarget {
        ScriptedTarget { script, log: RefCell::new(Vec::new()) }
    }

    fn log(&self) -> Vec<Request> {
        self.log.borrow().clone()
    }
}

impl RawTarget for ScriptedTarget {
    fn allocate_raw(&self, size: usize) -> Option<usize> {
        let got = self.script.region;
        self.log.borrow_mut().push(Request::Allocate { size, got });
        got
    }

    fn write_raw(&self, addr: usize, data: &[u8]) -> bool {
        let done = self.script.write_taken;
        self.log.borrow_mut().push(Request::Write { addr, data: data.to_vec(), done });
        done
    }

    fn create_thread_raw(&self, entry: usize, argument: usize) -> Option<usize> {
        let got = self.script.thread;
        self.log.borrow_mut().push(Request::CreateThread { entry, argument, got });
        got
    }

    fn wait_raw(&self, thread: usize, limit: Option<u32>) -> bool {
        let done = self.script.wait_done;
        self.log.borrow_mut().push(Request::Wait { thread, limit, done });
        done
    }

    fn exit_code_raw(&self, thread: usize) -> Option<u32> {
        let code = self.script.exit_code;
        self.log.borrow_mut().push(Request::ExitCode { thread, code });
        code
    }

    fn close_thread_raw(&self, thread: usize) -> bool {
        let done = self.script.close_done;
        self.log.borrow_mut().push(Request::CloseThread { thread, done });
        done
    }

    fn free_raw(&self, addr: usize) -> bool {
        let done = self.script.free_done;
        self.log.borrow_mut().push(Request::Free { addr, done });
        done
    }
}

const REGION: usize = 0x7000_0000;
const THREAD: usize = 0x1d4;
const LOADER: usize = 0x7ffe_1000;

fn path() -> Vec<u16> {
    "C:\\t\\a.dll".encode_utf16().collect()
}

fn attempt(script: Script) -> (Result<(), InjectError>, Vec<&'static str>, Process<ScriptedTarget>) {
    let mut process = Process::new(ScriptedTarget::new(script));
    let end = process.inject(Some(LOADER), &path());
    let names = process.handle().log().iter().map(name).collect();
    (end, names, process)
}

fn name(request: &Request) -> &'static str {
    match request {
        Request::Allocate { .. } => "allocate",
        Request::Write { .. } => "write",
        Request::CreateThread { .. } => "create-thread",
        Request::Wait { .. } => "wait",
        Request::ExitCode { .. } => "exit-code",
        Request::CloseThread { .. } => "close-thread",
        Request::Free { .. } => "free",
    }
}

#[test]
fn injection_makes_each_step_once_and_in_order() {
    let (end, names, _) = attempt(Script::granting(REGION, THREAD, 0x5000_0000));
    assert_eq!(end, Ok(()));
    assert_eq!(
        names,
        vec!["allocate", "write", "create-thread", "wait", "exit-code", "close-thread", "free"]
    );
}

#[test]
fn injection_hands_each_step_what_it_needs() {
    let (_, _, process) = attempt(Script::granting(REGION, THREAD, 1));
    let log = process.handle().log();
    let bytes = wide_bytes(&path());
    match &log[0] {
        Request::Allocate { size, got } => {
            assert_eq!(*size, bytes.len());
            assert_eq!(*size, 2 * (path().len() + 1));
            assert_eq!(*got, Some(REGION));
        }
        _ => panic!("an allocation was expected"),
    }
    match &log[1] {
        Request::Write { addr, data, done } => {
            assert_eq!(*addr, REGION);
            assert_eq!(data, &bytes);
            assert!(*done);
        }
        _ => panic!("a write was expected"),
    }
    match &log[2] {
        Request::CreateThread { entry, argument, got } => {
            assert_eq!((*entry, *argument), (LOADER, REGION));
            assert_eq!(*got, Some(THREAD));
        }
        _ => panic!("a thread was expected"),
    }
    assert_eq!(log[3], Request::Wait { thread: THREAD, limit: None, done: true });
    assert!(matches!(log[4], Request::ExitCode { thread: THREAD, code: Some(1) }));
    assert!(matches!(log[5], Request::CloseThread { thread: THREAD, done: true }));
    assert!(matches!(log[6], Request::Free { addr: REGION, done: true }));
}

#[test]
fn injection_frees_also_when_the_module_was_not_loaded() {
    let (end, names, _) = attempt(Script::granting(REGION, THREAD, 0));
    assert_eq!(end, Ok(()));
    assert_eq!(names.last(), Some(&"free"));
    assert_eq!(names.iter().filter(|n| **n == "free").count(), 1);
    assert_eq!(names.iter().filter(|n| **n == "close-thread").count(), 1);
}

#[test]
fn injection_without_loader_asks_nothing() {
    let mut process = Process::new(ScriptedTarget::new(Script::granting(REGION, THREAD, 1)));
    assert_eq!(process.inject(None, &path()), Err(InjectError::LoaderRoutineNotFound));
    assert!(process.handle().log().is_empty());
}

#[test]
fn injection_ends_when_no_memory_is_given() {
    let mut script = Script::granting(REGION, THREAD, 1);
    script.region = None;
    let (end, names, _) = attempt(script);
    assert_eq!(end, Err(InjectError::RemoteAllocationFailed));
    assert_eq!(names, vec!["allocate"]);
}

#[test]
fn injection_ends_when_the_path_is_not_written() {
    let mut script = Script::granting(REGION, THREAD, 1);
    script.write_taken = false;
    let (end, names, _) = attempt(script);
    assert_eq!(end, Err(InjectError::RemoteWriteFailed));
    assert_eq!(names, vec!["allocate", "write"]);
}

#[test]
fn injection_without_thread_cleans_nothing_up() {
    let mut script = Script::granting(REGION, THREAD, 1);
    script.thread = None;
    let (end, names, _) = attempt(script);
    assert_eq!(end, Err(InjectError::ThreadCreationFailed));
    assert_eq!(names, vec!["allocate", "write", "create-thread"]);
    assert!(!names.contains(&"free"));
    assert!(!names.contains(&"close-thread"));
}

#[test]
fn injection_ends_when_the_wait_fails() {
    let mut script = Script::granting(REGION, THREAD, 1);
    script.wait_done = false;
    let (end, names, _) = attempt(script);
    assert_eq!(end, Err(InjectError::WaitFailed));
    assert_eq!(names, vec!["allocate", "write", "create-thread", "wait"]);
}

#[test]
fn injection_ends_when_the_exit_code_cannot_be_had() {
    let mut script = Script::granting(REGION, THREAD, 1);
    script.exit_code = None;
    let (end, names, _) = attempt(script);
    assert_eq!(end, Err(InjectError::ExitCodeFailed));
    assert_eq!(names, vec!["allocate", "write", "create-thread", "wait", "exit-code"]);
}

#[test]
fn injection_ends_when_the_thread_cannot_be_closed() {
    let mut script = Script::granting(REGION, THREAD, 1);
    script.close_done = false;
    let (end, names, _) = attempt(script);
    assert_eq!(end, Err(InjectError::CloseThreadFailed));
    assert_eq!(
        names,
        vec!["allocate", "write", "create-thread", "wait", "exit-code", "close-thread"]
    );
}

#[test]
fn injection_reports_memory_that_is_not_taken_back() {
    let mut script = Script::granting(REGION, THREAD, 1);
    script.free_done = false;
    let (end, names, _) = attempt(script);
    assert_eq!(end, Err(InjectError::FreeFailed));
    assert_eq!(names.len(), 7);
}

#[test]
fn wide_bytes_are_the_units_low_byte_first_and_a_zero_unit() {
    let units: Vec<u16> = "ab".encode_utf16().collect();
    assert_eq!(wide_bytes(&units), vec![0x61, 0, 0x62, 0, 0, 0]);
    assert_eq!(wide_bytes(&[0x1234, 0xffff]), vec![0x34, 0x12, 0xff, 0xff, 0, 0]);
    assert_eq!(wide_bytes(&[]), vec![0, 0]);
}

fn entry(process_id: u32, name: &str) -> ProcessEntry {
    let mut exe_file: Vec<u16> = name.encode_utf16().collect();
    exe_file.resize(260, 0);
    ProcessEntry { process_id, exe_file }
}

fn wide(name: &str) -> Vec<u16> {
    name.encode_utf16().collect()
}

#[test]
fn process_is_picked_by_the_exact_name_of_its_program() {
    let entries = vec![
        entry(4, "System"),
        entry(812, "bhd.exe.bak"),
        entry(900, "BHD.EXE"),
        entry(1044, "bhd.exe"),
        entry(2000, "bhd.exe"),
    ];
    let found = Process::<ScriptedTarget>::get_process_by_name(&wide("bhd.exe"), &entries);
    assert_eq!(found, Some(1044));
    let other = Process::<ScriptedTarget>::get_process_by_name(&wide("System"), &entries);
    assert_eq!(other, Some(4));
}

#[test]
fn process_that_does_not_run_is_not_found() {
    let entries = vec![entry(4, "System"), entry(812, "bhd.exe")];
    let name = wide("DarkSoulsRemastered.exe");
    assert_eq!(Process::<ScriptedTarget>::get_process_by_name(&name, &entries), None);
    assert_eq!(Process::<ScriptedTarget>::get_process_by_name(&wide("bhd"), &entries), None);
    assert_eq!(Process::<ScriptedTarget>::get_process_by_name(&name, &[]), None);
}

#[test]
fn name_of_a_program_ends_at_the_first_zero_or_with_the_field() {
    let mut stale = entry(7, "a.exe");
    stale.exe_file[6] = 'x' as u16;
    let full = ProcessEntry { process_id: 8, exe_file: wide("full") };
    let entries = vec![stale, full];
    assert_eq!(
        Process::<ScriptedTarget>::get_process_by_name(&wide("a.exe"), &entries),
        Some(7)
    );
    assert_eq!(Process::<ScriptedTarget>::get_process_by_name(&wide("full"), &entries), Some(8));
    assert_eq!(memedit::process::field_holds(&[0, 0x61], &[]), true);
    assert_eq!(memedit::process::field_holds(&[0x61, 0], &[0x61, 0]), false);
}
