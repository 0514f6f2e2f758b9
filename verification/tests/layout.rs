use memedit::codec::{decode, encode};
use memedit::layout::{row_from_bytes, row_to_bytes, FixedLayout};

#[test]
fn encode_writes_the_lowest_byte_first() {
    assert_eq!(encode(0x0102_0304, 4), vec![4, 3, 2, 1]);
    assert_eq!(encode(0x2000, 8), vec![0, 0x20, 0, 0, 0, 0, 0, 0]);
    assert_eq!(encode(0x1ff, 1), vec![0xff]);
    assert_eq!(encode(7, 0), Vec::<u8>::new());
    assert_eq!(encode(1, 10), vec![1, 0, 0, 0, 0, 0, 0, 0, 0, 0]);
}

#[test]
fn decode_reads_the_lowest_byte_first() {
    assert_eq!(decode(&[4, 3, 2, 1]), 0x0102_0304);
    assert_eq!(decode(&[]), 0);
    assert_eq!(decode(&[0xff; 8]), u64::MAX);
    assert_eq!(decode(&[0, 0, 0, 0, 0, 0, 0, 0x80]), 1 << 63);
}

#[test]
fn decode_undoes_encode() {
    for value in [0_u64, 1, 0xff, 0x100, 0xdead_beef, u64::MAX] {
        assert_eq!(decode(&encode(value, 8)), value);
    }
    assert_eq!(decode(&encode(0x1_0000_0001, 4)), 1);
}

#[test]
fn sizes_of_the_numbers() {
    assert_eq!(<u8 as FixedLayout>::size(), 1);
    assert_eq!(<u16 as FixedLayout>::size(), 2);
    assert_eq!(<u32 as FixedLayout>::size(), 4);
    assert_eq!(<u64 as FixedLayout>::size(), 8);
    assert_eq!(<i32 as FixedLayout>::size(), 4);
    assert_eq!(<usize as FixedLayout>::size(), std::mem::size_of::<usize>());
    assert_eq!(<[u32; 3] as FixedLayout>::size(), 12);
    assert_eq!(<memedit::dsr::CharacterStats as FixedLayout>::size(), 88);
}

#[test]
fn bytes_of_the_numbers_are_those_of_the_machine() {
    assert_eq!(0xab_u8.to_bytes(), vec![0xab]);
    assert_eq!(0xabcd_u16.to_bytes(), 0xabcd_u16.to_le_bytes());
    assert_eq!(0xabcd_ef01_u32.to_bytes(), 0xabcd_ef01_u32.to_le_bytes());
    assert_eq!(0xabcd_ef01_2345_6789_u64.to_bytes(), 0xabcd_ef01_2345_6789_u64.to_le_bytes());
    assert_eq!(0x1234_usize.to_bytes(), 0x1234_usize.to_le_bytes());
    for value in [0_i32, 1, -1, i32::MIN, i32::MAX, -0x1234_5678] {
        assert_eq!(value.to_bytes(), value.to_le_bytes());
        assert_eq!(i32::from_bytes(&value.to_le_bytes()), value);
    }
    assert_eq!(u16::from_bytes(&[0x34, 0x12]), 0x1234);
    assert_eq!(u32::from_bytes(&[1, 0, 0, 0x80]), 0x8000_0001);
    assert_eq!(u64::from_bytes(&[0, 0, 0, 0, 1, 0, 0, 0]), 1 << 32);
    assert_eq!(usize::from_bytes(&0x2000_usize.to_le_bytes()), 0x2000);
    assert_eq!(u8::from_bytes(&[9]), 9);
}

#[test]
fn row_lies_value_behind_value() {
    assert_eq!(row_to_bytes::<u16>(&[0x0102, 0x0304]), vec![2, 1, 4, 3]);
    assert_eq!(row_to_bytes::<i32>(&[-1, 1]), vec![0xff, 0xff, 0xff, 0xff, 1, 0, 0, 0]);
    assert_eq!(row_from_bytes::<u16>(&[2, 1, 4, 3], 2), vec![0x0102, 0x0304]);
    assert_eq!(row_from_bytes::<u8>(&[], 0), Vec::<u8>::new());
    assert_eq!(<[u32; 3]>::from_bytes(&[1, 0, 0, 0, 2, 0, 0, 0, 3, 0, 0, 0]), [1, 2, 3]);
    assert_eq!([1_u32, 2, 3].to_bytes(), vec![1, 0, 0, 0, 2, 0, 0, 0, 3, 0, 0, 0]);
}

#[test]
fn bytes_of_the_value_that_bytes_stand_for_are_those_bytes() {
    let bytes: Vec<u8> = (0..88).map(|i| (i * 7 + 3) as u8).collect();
    assert_eq!(u8::from_bytes(&bytes[..1]).to_bytes(), &bytes[..1]);
    assert_eq!(u16::from_bytes(&bytes[..2]).to_bytes(), &bytes[..2]);
    assert_eq!(u32::from_bytes(&bytes[..4]).to_bytes(), &bytes[..4]);
    assert_eq!(u64::from_bytes(&bytes[..8]).to_bytes(), &bytes[..8]);
    assert_eq!(i32::from_bytes(&[1, 2, 3, 0x80]).to_bytes(), vec![1, 2, 3, 0x80]);
    assert_eq!(<[u32; 3]>::from_bytes(&bytes[..12]).to_bytes(), &bytes[..12]);
    let stats = memedit::dsr::CharacterStats::from_bytes(&bytes);
    assert_eq!(stats.to_bytes(), bytes);
    let word = std::mem::size_of::<usize>();
    assert_eq!(usize::from_bytes(&bytes[..word]).to_bytes(), &bytes[..word]);
}
