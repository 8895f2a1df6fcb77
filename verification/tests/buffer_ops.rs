use byte_buffer::{
    BigEndian, BufferOverflowError, BufferUnderflowError, ByteBuffer, ByteBufferError,
    LittleEndian,
};

#[test]
fn allocate_zero_fills_and_opens_whole_region() {
    let mut b = ByteBuffer::<BigEndian>::allocate(5);
    assert_eq!(b.get_capacity(), 5);
    assert_eq!(b.get_position(), 0);
    assert_eq!(b.get_limit(), 5);
    assert_eq!(b.get_remaining(), 5);
    assert_eq!(b.take_vec(), vec![0, 0, 0, 0, 0]);
}

#[test]
fn wrap_takes_bytes_verbatim() {
    let mut b = ByteBuffer::<LittleEndian>::wrap(vec![9, 8, 7]);
    assert_eq!(b.get_capacity(), 3);
    assert_eq!(b.get_position(), 0);
    assert_eq!(b.get_limit(), 3);
    assert_eq!(b.take_u8().unwrap(), 9);
}

#[test]
fn copy_from_copies_bytes_verbatim() {
    let mut b = ByteBuffer::<BigEndian>::copy_from(&[1, 2]);
    assert_eq!(b.get_capacity(), 2);
    assert_eq!(b.get_limit(), 2);
    assert_eq!(b.take_vec(), vec![1, 2]);
}

#[test]
fn overflow_boundary_exact_fit_succeeds() {
    let mut b = ByteBuffer::<BigEndian>::allocate(4);
    b.put_u32(0x01020304).unwrap();
    assert_eq!(b.get_remaining(), 0);

    let err = b.put_u8(5).unwrap_err();
    assert_eq!(err, BufferOverflowError { requested: 1, remaining: 0 });
    assert_eq!(b.get_position(), 4);

    b.flip();
    assert_eq!(b.take_u32().unwrap(), 0x01020304);
}

#[test]
fn overflow_reports_request_and_remaining() {
    let mut b = ByteBuffer::<LittleEndian>::allocate(3);
    let err = b.put_u32(1).unwrap_err();
    assert_eq!(err, BufferOverflowError { requested: 4, remaining: 3 });
    assert_eq!(b.get_position(), 0);
}

#[test]
fn underflow_boundary_mirrors_overflow() {
    let mut b = ByteBuffer::<BigEndian>::allocate(8);
    b.put_u16(0xAABB).unwrap();
    b.flip();

    let err = b.take_u32().unwrap_err();
    assert_eq!(err, BufferUnderflowError { requested: 4, remaining: 2 });
    assert_eq!(b.get_position(), 0);

    assert_eq!(b.take_u16().unwrap(), 0xAABB);
    assert_eq!(b.get_remaining(), 0);
    let err = b.take_u8().unwrap_err();
    assert_eq!(err, BufferUnderflowError { requested: 1, remaining: 0 });
}

#[test]
fn underflow_on_slice_reads() {
    let mut b = ByteBuffer::<BigEndian>::wrap(vec![1, 2]);
    let mut into = vec![0u8; 3];
    let err = b.take_slice(&mut into).unwrap_err();
    assert_eq!(err, BufferUnderflowError { requested: 3, remaining: 2 });
    assert_eq!(into, vec![0, 0, 0]);
    assert_eq!(b.get_position(), 0);
}

#[test]
fn flip_bounds_reading_to_what_was_written() {
    let mut b = ByteBuffer::<BigEndian>::allocate(16);
    b.put_slice(&[1, 2, 3, 4, 5]).unwrap();
    b.flip();
    assert_eq!(b.get_position(), 0);
    assert_eq!(b.get_remaining(), 5);
    assert_eq!(b.get_limit(), 5);
}

#[test]
fn compact_keeps_unread_tail_at_front() {
    let mut b = ByteBuffer::<BigEndian>::allocate(8);
    b.put_slice(&[1, 2, 3, 4, 5, 6]).unwrap();
    b.flip();
    assert_eq!(b.take_u8().unwrap(), 1);
    assert_eq!(b.take_u8().unwrap(), 2);

    b.compact();
    assert_eq!(b.get_position(), 4);
    assert_eq!(b.get_limit(), 8);

    b.flip();
    assert_eq!(b.take_vec(), vec![3, 4, 5, 6]);
}

#[test]
fn clear_reopens_whole_region() {
    let mut b = ByteBuffer::<LittleEndian>::allocate(6);
    b.put_u32(7).unwrap();
    b.flip();
    b.clear();
    assert_eq!(b.get_position(), 0);
    assert_eq!(b.get_limit(), 6);
    assert_eq!(b.get_remaining(), 6);
}

#[test]
fn has_remaining_tracks_the_head() {
    let mut b = ByteBuffer::<BigEndian>::allocate(1);
    assert!(b.has_remaining());
    b.put_u8(1).unwrap();
    assert!(!b.has_remaining());
}

#[test]
fn set_position_moves_the_head_within_limit() {
    let mut b = ByteBuffer::<BigEndian>::wrap(vec![1, 2, 3, 4]);
    b.set_position(3).unwrap();
    assert_eq!(b.get_position(), 3);
    assert_eq!(b.take_u8().unwrap(), 4);
}

#[test]
fn set_position_rejects_indices_past_limit() {
    let mut b = ByteBuffer::<BigEndian>::allocate(4);
    let err = b.set_position(5).unwrap_err();
    assert_eq!(err, ByteBufferError::IndexOutOfBounds { index: 5, low: 0, high: 4 });
    assert_eq!(b.get_position(), 0);
}

#[test]
fn set_limit_cascade_pulls_position_down() {
    let mut b = ByteBuffer::<BigEndian>::allocate(10);
    b.set_position(7).unwrap();
    b.set_limit(5).unwrap();
    assert_eq!(b.get_limit(), 5);
    assert_eq!(b.get_position(), 5);
}

#[test]
fn set_limit_rejects_indices_past_capacity() {
    let mut b = ByteBuffer::<BigEndian>::allocate(10);
    b.set_position(7).unwrap();
    let err = b.set_limit(11).unwrap_err();
    assert_eq!(err, ByteBufferError::IndexOutOfBounds { index: 11, low: 0, high: 10 });
    assert_eq!(b.get_limit(), 10);
    assert_eq!(b.get_position(), 7);
}

#[test]
fn into_vec_yields_bytes_between_position_and_limit() {
    let mut b = ByteBuffer::<BigEndian>::wrap(vec![1, 2, 3, 4, 5]);
    b.set_position(1).unwrap();
    b.set_limit(4).unwrap();
    assert_eq!(b.into_vec(), vec![2, 3, 4]);
}

#[test]
fn take_vec_drains_and_leaves_nothing() {
    let mut b = ByteBuffer::<LittleEndian>::wrap(vec![4, 5, 6]);
    b.set_position(1).unwrap();
    assert_eq!(b.take_vec(), vec![5, 6]);
    assert_eq!(b.get_remaining(), 0);
    assert_eq!(b.take_vec(), Vec::<u8>::new());
}
