use byte_buffer::{BigEndian, BufferOverflowError, ByteBuffer, LittleEndian};

#[test]
fn stage_flip_and_consume_big_endian() {
    let mut b = ByteBuffer::<BigEndian>::allocate(1024);
    b.put_u16(0x1234).unwrap();
    b.put_u8(0xFF).unwrap();
    b.flip();
    assert_eq!(b.take_u16().unwrap(), 0x1234);
    assert_eq!(b.get_position(), 2);
    assert_eq!(b.take_u8().unwrap(), 0xFF);
    assert_eq!(b.get_position(), 3);
    assert_eq!(b.get_remaining(), 0);
}

#[test]
fn rejected_write_leaves_the_buffer_as_it_was() {
    let mut b = ByteBuffer::<BigEndian>::allocate(2);
    b.put_u8(1).unwrap();
    b.put_u8(2).unwrap();
    let err = b.put_u8(3).unwrap_err();
    assert_eq!(err, BufferOverflowError { requested: 1, remaining: 0 });
    assert_eq!(b.get_position(), 2);
    b.flip();
    assert_eq!(b.take_u8().unwrap(), 1);
    assert_eq!(b.take_u8().unwrap(), 2);
}

#[test]
fn wrapped_big_endian_bytes_read_as_i32() {
    let mut b = ByteBuffer::<BigEndian>::wrap(vec![0x00, 0x00, 0x00, 0x01]);
    assert_eq!(b.take_i32().unwrap(), 1);
}

#[test]
fn big_endian_lays_most_significant_byte_first() {
    let mut b = ByteBuffer::<BigEndian>::allocate(4);
    b.put_u32(0x01020304).unwrap();
    b.flip();
    assert_eq!(b.take_vec(), vec![1, 2, 3, 4]);
}

#[test]
fn little_endian_lays_least_significant_byte_first() {
    let mut b = ByteBuffer::<LittleEndian>::allocate(4);
    b.put_u32(0x01020304).unwrap();
    b.flip();
    assert_eq!(b.take_vec(), vec![4, 3, 2, 1]);
}

#[test]
fn twenty_four_bit_fields_truncate_on_write() {
    let mut b = ByteBuffer::<BigEndian>::allocate(3);
    b.put_u24(0x01234567).unwrap();
    b.flip();
    assert_eq!(b.take_vec(), vec![0x23, 0x45, 0x67]);

    let mut b = ByteBuffer::<BigEndian>::allocate(3);
    b.put_i24(-1).unwrap();
    b.flip();
    assert_eq!(b.take_vec(), vec![0xFF, 0xFF, 0xFF]);
}

#[test]
fn twenty_four_bit_fields_sign_extend_on_read() {
    let mut b = ByteBuffer::<BigEndian>::wrap(vec![0xFF, 0xFF, 0xFF]);
    assert_eq!(b.take_i24().unwrap(), -1);

    let mut b = ByteBuffer::<BigEndian>::wrap(vec![0x7F, 0xFF, 0xFF]);
    assert_eq!(b.take_i24().unwrap(), 0x7FFFFF);

    let mut b = ByteBuffer::<BigEndian>::wrap(vec![0x80, 0x00, 0x00]);
    assert_eq!(b.take_i24().unwrap(), -8388608);
}

#[test]
fn forty_eight_bit_fields_truncate_and_sign_extend() {
    let mut b = ByteBuffer::<LittleEndian>::allocate(6);
    b.put_u48(0xFFFF_FEDC_BA98_7654).unwrap();
    b.flip();
    assert_eq!(b.take_u48().unwrap(), 0xFEDC_BA98_7654);

    let mut b = ByteBuffer::<BigEndian>::wrap(vec![0xFF; 6]);
    assert_eq!(b.take_i48().unwrap(), -1);
}

#[test]
fn mixed_widths_come_back_in_writing_order() {
    let mut b = ByteBuffer::<LittleEndian>::allocate(32);
    b.put_u8(7).unwrap();
    b.put_i16(-2).unwrap();
    b.put_u32(0xCAFEBABE).unwrap();
    b.put_i64(-10).unwrap();
    b.flip();
    assert_eq!(b.take_u8().unwrap(), 7);
    assert_eq!(b.take_i16().unwrap(), -2);
    assert_eq!(b.take_u32().unwrap(), 0xCAFEBABE);
    assert_eq!(b.take_i64().unwrap(), -10);
    assert_eq!(b.get_remaining(), 0);
}
