use std::fmt::Debug;

use byte_buffer::{BigEndian, BufferPut, BufferTake, ByteBuffer, ByteOrder, LittleEndian};

fn test_read_write<T>(value: T)
where
    T: BufferPut + BufferTake + PartialEq + Debug + Copy,
{
    let mut buffer = ByteBuffer::<LittleEndian>::allocate(1024);

    buffer.put(value).unwrap();

    let length = buffer.get_position();

    buffer.flip();

    let taken = buffer.take::<T>().unwrap();

    assert_eq!(length, buffer.get_position());
    assert_eq!(value, taken);
}

#[test]
fn it_works() {
    test_read_write(3u16);
}

#[test]
fn generic_hooks_cover_every_fixed_width_type() {
    test_read_write(0xABu8);
    test_read_write(-5i8);
    test_read_write(0xBEEFu16);
    test_read_write(-30000i16);
    test_read_write(0xDEADBEEFu32);
    test_read_write(-2000000000i32);
    test_read_write(0xDEADBEEFCAFEF00Du64);
    test_read_write(-9000000000000000000i64);
    test_read_write(0xDEADBEEFCAFEF00D0123456789ABCDEFu128);
    test_read_write(-170141183460469231731687303715884105728i128);
}

fn unsigned_round_trips<B: ByteOrder>() {
    let mut b = ByteBuffer::<B>::allocate(64);

    for v in [0u8, 1, 0x7F, 0x80, u8::MAX] {
        b.clear();
        b.put_u8(v).unwrap();
        let written = b.get_position();
        b.flip();
        assert_eq!(b.take_u8().unwrap(), v);
        assert_eq!(b.get_position(), written);
    }
    for v in [0u16, 1, 0x1234, u16::MAX] {
        b.clear();
        b.put_u16(v).unwrap();
        let written = b.get_position();
        b.flip();
        assert_eq!(b.take_u16().unwrap(), v);
        assert_eq!(b.get_position(), written);
    }
    for v in [0u32, 1, 0xABCDEF, 0xFFFFFF] {
        b.clear();
        b.put_u24(v).unwrap();
        let written = b.get_position();
        b.flip();
        assert_eq!(b.take_u24().unwrap(), v);
        assert_eq!(b.get_position(), written);
    }
    for v in [0u32, 1, 0xDEADBEEF, u32::MAX] {
        b.clear();
        b.put_u32(v).unwrap();
        let written = b.get_position();
        b.flip();
        assert_eq!(b.take_u32().unwrap(), v);
        assert_eq!(b.get_position(), written);
    }
    for v in [0u64, 1, 0xABCDEF012345, 0xFFFFFFFFFFFF] {
        b.clear();
        b.put_u48(v).unwrap();
        let written = b.get_position();
        b.flip();
        assert_eq!(b.take_u48().unwrap(), v);
        assert_eq!(b.get_position(), written);
    }
    for v in [0u64, 1, 0xDEADBEEFCAFEF00D, u64::MAX] {
        b.clear();
        b.put_u64(v).unwrap();
        let written = b.get_position();
        b.flip();
        assert_eq!(b.take_u64().unwrap(), v);
        assert_eq!(b.get_position(), written);
    }
    for v in [0u128, 1, 0xDEADBEEFCAFEF00D0123456789ABCDEF, u128::MAX] {
        b.clear();
        b.put_u128(v).unwrap();
        let written = b.get_position();
        b.flip();
        assert_eq!(b.take_u128().unwrap(), v);
        assert_eq!(b.get_position(), written);
    }
}

fn signed_round_trips<B: ByteOrder>() {
    let mut b = ByteBuffer::<B>::allocate(64);

    for v in [0i8, 1, -1, i8::MIN, i8::MAX] {
        b.clear();
        b.put_i8(v).unwrap();
        b.flip();
        assert_eq!(b.take_i8().unwrap(), v);
    }
    for v in [0i16, 1, -1, i16::MIN, i16::MAX] {
        b.clear();
        b.put_i16(v).unwrap();
        b.flip();
        assert_eq!(b.take_i16().unwrap(), v);
    }
    // A 24-bit field represents [-2^23, 2^23): only those i32 values survive.
    for v in [0i32, 1, -1, -8388608, 8388607] {
        b.clear();
        b.put_i24(v).unwrap();
        b.flip();
        assert_eq!(b.take_i24().unwrap(), v);
    }
    for v in [0i32, 1, -1, i32::MIN, i32::MAX] {
        b.clear();
        b.put_i32(v).unwrap();
        b.flip();
        assert_eq!(b.take_i32().unwrap(), v);
    }
    // A 48-bit field represents [-2^47, 2^47).
    for v in [0i64, 1, -1, -140737488355328, 140737488355327] {
        b.clear();
        b.put_i48(v).unwrap();
        b.flip();
        assert_eq!(b.take_i48().unwrap(), v);
    }
    for v in [0i64, 1, -1, i64::MIN, i64::MAX] {
        b.clear();
        b.put_i64(v).unwrap();
        b.flip();
        assert_eq!(b.take_i64().unwrap(), v);
    }
    for v in [0i128, 1, -1, i128::MIN, i128::MAX] {
        b.clear();
        b.put_i128(v).unwrap();
        b.flip();
        assert_eq!(b.take_i128().unwrap(), v);
    }
}

#[test]
fn unsigned_round_trips_big_endian() {
    unsigned_round_trips::<BigEndian>();
}

#[test]
fn unsigned_round_trips_little_endian() {
    unsigned_round_trips::<LittleEndian>();
}

#[test]
fn signed_round_trips_big_endian() {
    signed_round_trips::<BigEndian>();
}

#[test]
fn signed_round_trips_little_endian() {
    signed_round_trips::<LittleEndian>();
}

#[test]
fn slice_round_trip() {
    let mut b = ByteBuffer::<BigEndian>::allocate(8);
    b.put_slice(&[10, 20, 30]).unwrap();
    assert_eq!(b.get_position(), 3);
    b.flip();
    let mut first_two = vec![0u8; 2];
    b.take_slice(&mut first_two).unwrap();
    assert_eq!(first_two, vec![10, 20]);
    assert_eq!(b.take_vec(), vec![30]);
    assert_eq!(b.get_remaining(), 0);
}

#[test]
fn slice_round_trip_through_generic_put() {
    let mut b = ByteBuffer::<LittleEndian>::allocate(8);
    let bytes: &[u8] = &[7, 8, 9];
    b.put(bytes).unwrap();
    b.flip();
    assert_eq!(b.take_vec(), vec![7, 8, 9]);
}
