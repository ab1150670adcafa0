use busmem::repr::{decode_le, encode_le};
use busmem::{getter, malloc, setter, Bus, Plain, SIZE};

#[test]
fn encode_le_puts_the_low_byte_first() {
    assert_eq!(encode_le(0x44332211, 4), vec![0x11, 0x22, 0x33, 0x44]);
    assert_eq!(encode_le(0x0102030405060708, 8), vec![8, 7, 6, 5, 4, 3, 2, 1]);
    assert_eq!(encode_le(0x1234, 2), vec![0x34, 0x12]);
    assert_eq!(encode_le(0xab, 1), vec![0xab]);
    assert_eq!(encode_le(0xab, 0), Vec::<u8>::new());
    // bytes beyond the width are dropped, missing ones are zero
    assert_eq!(encode_le(0x123456, 2), vec![0x56, 0x34]);
    assert_eq!(encode_le(0x12, 3), vec![0x12, 0, 0]);
}

#[test]
fn decode_le_reads_the_low_byte_first() {
    assert_eq!(decode_le(&[0x11, 0x22, 0x33, 0x44]), 0x44332211);
    assert_eq!(decode_le(&[8, 7, 6, 5, 4, 3, 2, 1]), 0x0102030405060708);
    assert_eq!(decode_le(&[]), 0);
    assert_eq!(decode_le(&[0xff; 8]), u64::MAX);
    assert_eq!(decode_le(&[0, 1]), 256);
}

#[test]
fn sizes_of_the_plain_types() {
    assert_eq!(<u8 as Plain>::size(), 1);
    assert_eq!(<u16 as Plain>::size(), 2);
    assert_eq!(<u32 as Plain>::size(), 4);
    assert_eq!(<u64 as Plain>::size(), 8);
    assert_eq!(<i8 as Plain>::size(), 1);
    assert_eq!(<i16 as Plain>::size(), 2);
    assert_eq!(<i32 as Plain>::size(), 4);
    assert_eq!(<i64 as Plain>::size(), 8);
}

#[test]
fn representations_are_twos_complement_little_endian() {
    assert_eq!(0x44332211i32.encode(), vec![0x11, 0x22, 0x33, 0x44]);
    assert_eq!((-1i32).encode(), vec![0xff, 0xff, 0xff, 0xff]);
    assert_eq!((-2i16).encode(), vec![0xfe, 0xff]);
    assert_eq!(i8::MIN.encode(), vec![0x80]);
    assert_eq!(i64::MIN.encode(), vec![0, 0, 0, 0, 0, 0, 0, 0x80]);
    assert_eq!(0xbeefu16.encode(), vec![0xef, 0xbe]);
    assert_eq!(7u8.encode(), vec![7]);
    assert_eq!(u64::MAX.encode(), vec![0xff; 8]);
    assert_eq!(1u32.encode(), 1u32.to_le_bytes().to_vec());
    assert_eq!((-123456789i64).encode(), (-123456789i64).to_le_bytes().to_vec());
}

#[test]
fn decode_inverts_encode() {
    for v in [0u8, 1, 127, 128, 255] {
        assert_eq!(u8::decode(&v.encode()), v);
    }
    for v in [0u16, 1, 255, 256, 0x8000, u16::MAX] {
        assert_eq!(u16::decode(&v.encode()), v);
    }
    for v in [0u32, 1, 0x44332211, 0x8000_0000, u32::MAX] {
        assert_eq!(u32::decode(&v.encode()), v);
    }
    for v in [0u64, 1, 0x0102030405060708, 1 << 63, u64::MAX] {
        assert_eq!(u64::decode(&v.encode()), v);
    }
    for v in [0i8, 1, -1, i8::MIN, i8::MAX] {
        assert_eq!(i8::decode(&v.encode()), v);
    }
    for v in [0i16, 1, -1, -300, i16::MIN, i16::MAX] {
        assert_eq!(i16::decode(&v.encode()), v);
    }
    for v in [0i32, 1, -1, 0x12345678, -0x12345678, i32::MIN, i32::MAX] {
        assert_eq!(i32::decode(&v.encode()), v);
    }
    for v in [0i64, 1, -1, i64::MIN, i64::MAX, -0x0102030405060708] {
        assert_eq!(i64::decode(&v.encode()), v);
    }
}

#[test]
fn decode_reads_signed_values() {
    assert_eq!(i32::decode(&[0xff, 0xff, 0xff, 0xff]), -1);
    assert_eq!(i32::decode(&[0, 0, 0, 0x80]), i32::MIN);
    assert_eq!(i16::decode(&[0xff, 0x7f]), i16::MAX);
    assert_eq!(i8::decode(&[0x80]), -128);
    assert_eq!(i64::decode(&[0xfe, 0xff, 0xff, 0xff, 0xff, 0xff, 0xff, 0xff]), -2);
}

#[test]
fn store_then_load_returns_the_value() {
    let mut bus = Bus::new();
    let a = malloc(&mut bus, 1).unwrap();
    let b = malloc(&mut bus, 2).unwrap();
    let c = malloc(&mut bus, 4).unwrap();
    let d = malloc(&mut bus, 8).unwrap();
    let e = malloc(&mut bus, 8).unwrap();
    setter(&mut bus, 0xa5u8, a);
    setter(&mut bus, -12345i16, b);
    setter(&mut bus, 0xdeadbeefu32, c);
    setter(&mut bus, i64::MIN, d);
    setter(&mut bus, u64::MAX - 3, e);
    assert_eq!(getter::<u8>(&bus, a), 0xa5);
    assert_eq!(getter::<i16>(&bus, b), -12345);
    assert_eq!(getter::<u32>(&bus, c), 0xdeadbeef);
    assert_eq!(getter::<i64>(&bus, d), i64::MIN);
    assert_eq!(getter::<u64>(&bus, e), u64::MAX - 3);
}

#[test]
fn store_writes_exactly_the_bytes_of_the_value() {
    let mut bus = Bus::new();
    for i in 0..SIZE {
        bus.bus_write(i, 0xee);
    }
    setter(&mut bus, 0x44332211u32, 100);
    for i in 0..SIZE {
        let expected = match i {
            100 => 0x11,
            101 => 0x22,
            102 => 0x33,
            103 => 0x44,
            _ => 0xee,
        };
        assert_eq!(bus.bus_read(i), expected);
    }
}

#[test]
fn store_overwrites_what_was_there() {
    let mut bus = Bus::new();
    let p = malloc(&mut bus, 8).unwrap();
    setter(&mut bus, u64::MAX, p);
    setter(&mut bus, 0x0102u16, p + 2);
    assert_eq!(getter::<u64>(&bus, p), 0xffff_ffff_0102_ffff);
    assert_eq!(getter::<u16>(&bus, p + 2), 0x0102);
}

#[test]
fn load_copies_and_leaves_the_arena_alone() {
    let mut bus = Bus::new();
    let p = malloc(&mut bus, 4).unwrap();
    setter(&mut bus, 0x01020304u32, p);
    let before: Vec<u8> = (0..SIZE).map(|i| bus.bus_read(i)).collect();
    let first: u32 = getter(&bus, p);
    let second: u32 = getter(&bus, p);
    assert_eq!(first, second);
    let after: Vec<u8> = (0..SIZE).map(|i| bus.bus_read(i)).collect();
    assert_eq!(before, after);
}

#[test]
fn load_reinterprets_bytes() {
    let mut bus = Bus::new();
    let p = malloc(&mut bus, 4).unwrap();
    setter(&mut bus, -1i32, p);
    assert_eq!(getter::<u32>(&bus, p), u32::MAX);
    assert_eq!(getter::<u8>(&bus, p + 3), 0xff);
    assert_eq!(getter::<i16>(&bus, p), -1);
}

#[test]
fn store_and_load_reach_both_ends_of_the_arena() {
    let mut bus = Bus::new();
    setter(&mut bus, 0x1122334455667788u64, SIZE - 8);
    assert_eq!(getter::<u64>(&bus, SIZE - 8), 0x1122334455667788);
    assert_eq!(bus.bus_read(SIZE - 1), 0x11);
    setter(&mut bus, 0x99u8, 0);
    assert_eq!(getter::<u8>(&bus, 0), 0x99);
}
