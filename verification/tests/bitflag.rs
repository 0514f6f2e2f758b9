use memedit::bitflag::{Bitflag, FlagWord};
use memedit::chain::PointerChain;
use memedit::simulated::{Record, SimulatedProcess};

fn process_with(byte: u8) -> SimulatedProcess {
    let mut process = SimulatedProcess::new();
    assert!(process.place_value::<usize>(0x1000, 0x2000));
    assert!(process.place_value::<usize>(0x2068, 0x3000));
    assert!(process.place(0x3524, &[byte]));
    process
}

fn flag(mask: u8) -> Bitflag<u8> {
    Bitflag::new(PointerChain::new(&[0x1000, 0x68, 0x524]), mask)
}

fn writes(process: &SimulatedProcess) -> usize {
    process.log().iter().filter(|r| matches!(r, Record::Write { .. })).count()
}

#[test]
fn get_tells_whether_all_bits_of_the_mask_are_set() {
    let no_death = flag(0b10_0000);
    assert_eq!(no_death.get(&mut process_with(0b10_0000)), Some(true));
    assert_eq!(no_death.get(&mut process_with(0b1101_1111)), Some(false));
    assert_eq!(no_death.get(&mut process_with(0xff)), Some(true));
    let two = flag(0b0110);
    assert_eq!(two.get(&mut process_with(0b0110)), Some(true));
    assert_eq!(two.get(&mut process_with(0b0100)), Some(false));
    assert_eq!(two.get(&mut process_with(0b0010)), Some(false));
    assert_eq!(two.get(&mut process_with(0)), Some(false));
}

#[test]
fn set_true_then_get_is_true_and_other_bits_stay() {
    for before in [0x00_u8, 0xff, 0b1010_0101, 0b0101_1010, 0b10_0000] {
        for mask in [0b1_u8, 0b10_0000, 0b0110, 0x80, 0xff] {
            let mut process = process_with(before);
            let flag = flag(mask);
            assert_eq!(flag.set(&mut process, true), Some(()));
            assert_eq!(flag.get(&mut process), Some(true));
            let after = process.peek(0x3524).unwrap();
            assert_eq!(after, before | mask);
            assert_eq!(after & !mask, before & !mask);
        }
    }
}

#[test]
fn set_false_then_get_is_false_and_other_bits_stay() {
    for before in [0x00_u8, 0xff, 0b1010_0101, 0b0101_1010, 0b10_0000] {
        for mask in [0b1_u8, 0b10_0000, 0b0110, 0x80, 0xff] {
            let mut process = process_with(before);
            let flag = flag(mask);
            assert_eq!(flag.set(&mut process, false), Some(()));
            assert_eq!(flag.get(&mut process), Some(false));
            let after = process.peek(0x3524).unwrap();
            assert_eq!(after, before & !mask);
            assert_eq!(after & !mask, before & !mask);
        }
    }
}

#[test]
fn set_a_second_time_changes_nothing() {
    for before in [0x00_u8, 0xff, 0b1010_0101] {
        for up in [true, false] {
            let mut process = process_with(before);
            let flag = flag(0b0110);
            flag.set(&mut process, up);
            let once = process.peek(0x3524);
            assert_eq!(flag.set(&mut process, up), Some(()));
            assert_eq!(process.peek(0x3524), once);
        }
    }
}

#[test]
fn flag_without_bits_is_always_up() {
    let mut process = process_with(0b1010);
    let none = flag(0);
    none.set(&mut process, false);
    assert_eq!(none.get(&mut process), Some(true));
    assert_eq!(process.peek(0x3524), Some(0b1010));
}

#[test]
fn toggle_turns_the_bits_of_the_mask_over() {
    let mut process = process_with(0b1010_0101);
    flag(0b0000_1111).toggle(&mut process);
    assert_eq!(process.peek(0x3524), Some(0b1010_1010));
}

#[test]
fn toggle_twice_restores_the_number() {
    for before in 0..=255_u8 {
        for mask in [0_u8, 1, 0b10_0000, 0b0110, 0x80, 0xa5, 0xff] {
            let mut process = process_with(before);
            let flag = flag(mask);
            assert_eq!(flag.toggle(&mut process), Some(()));
            assert_eq!(process.peek(0x3524), Some(before ^ mask));
            assert_eq!(flag.toggle(&mut process), Some(()));
            assert_eq!(process.peek(0x3524), Some(before));
        }
    }
}

#[test]
fn change_is_one_read_followed_by_one_write() {
    let mut process = process_with(0b0100);
    flag(0b0001).set(&mut process, true);
    let log = process.log();
    assert_eq!(log.len(), 6);
    assert!(matches!(log[2], Record::Read { addr: 0x3524, len: 1, .. }));
    assert!(matches!(log[3], Record::Read { addr: 0x1000, .. }));
    assert!(matches!(log[4], Record::Read { addr: 0x2068, .. }));
    match &log[5] {
        Record::Write { addr, data, done } => {
            assert_eq!(*addr, 0x3524);
            assert_eq!(data, &vec![0b0101]);
            assert!(*done);
        }
        Record::Read { .. } => panic!("a write was expected"),
    }
}

#[test]
fn set_writes_nothing_when_the_read_fails() {
    let mut process = SimulatedProcess::new();
    process.place_value::<usize>(0x1000, 0x2000);
    process.place_value::<usize>(0x2068, 0x3000);
    let flag = flag(0b1);
    assert_eq!(flag.set(&mut process, true), Some(()));
    assert_eq!(flag.set(&mut process, false), Some(()));
    assert_eq!(writes(&process), 0);
    assert_eq!(process.log().len(), 6);
    assert_eq!(process.peek(0x3524), None);
}

#[test]
fn toggle_writes_nothing_when_the_read_fails() {
    let mut process = SimulatedProcess::new();
    process.place_value::<usize>(0x1000, 0x2000);
    let flag = flag(0b1);
    assert_eq!(flag.toggle(&mut process), Some(()));
    assert_eq!(writes(&process), 0);
    assert_eq!(process.log().len(), 2);
}

#[test]
fn get_is_none_when_the_number_cannot_be_read() {
    let mut process = SimulatedProcess::new();
    assert_eq!(flag(0b1).get(&mut process), None);
    assert_eq!(process.log().len(), 1);
}

#[test]
fn flags_of_wider_numbers() {
    let mut process = SimulatedProcess::new();
    process.place(0x10, &[0x00, 0x01, 0, 0, 0, 0, 0, 0]);
    let wide = Bitflag::<u16>::new(PointerChain::new(&[0x10]), 0x0180);
    assert_eq!(wide.get(&mut process), Some(false));
    wide.set(&mut process, true);
    assert_eq!(process.peek(0x10), Some(0x80));
    assert_eq!(process.peek(0x11), Some(0x01));
    assert_eq!(wide.get(&mut process), Some(true));
    let wider = Bitflag::<u32>::new(PointerChain::new(&[0x10]), 0x8000_0001);
    wider.toggle(&mut process);
    assert_eq!(process.peek(0x10), Some(0x81));
    assert_eq!(process.peek(0x13), Some(0x80));
    let widest = Bitflag::<u64>::new(PointerChain::new(&[0x10]), 1 << 63);
    widest.set(&mut process, true);
    assert_eq!(process.peek(0x17), Some(0x80));
    assert_eq!(widest.get(&mut process), Some(true));
    widest.set(&mut process, false);
    assert_eq!(process.peek(0x17), Some(0));
    assert_eq!(process.peek(0x13), Some(0x80));
}

#[test]
fn operations_on_the_bits_of_a_number() {
    assert_eq!(0b1100_u8.bit_and(0b1010), 0b1000);
    assert_eq!(0b1100_u8.bit_or(0b1010), 0b1110);
    assert_eq!(0b1100_u8.bit_xor(0b1010), 0b0110);
    assert_eq!(0b1100_u8.bit_not(), 0b1111_0011);
    assert_eq!(0x00ff_u16.bit_not(), 0xff00);
    assert_eq!(1_u32.bit_not(), 0xffff_fffe);
    assert_eq!(0_u64.bit_not(), u64::MAX);
    assert!(7_u16.same(7));
    assert!(!7_u32.same(8));
}
