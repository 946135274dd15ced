use sensor_codec::{BufferError, ByteBuffer};

#[test]
fn full_buffer_refuses_another_byte() {
    let mut buffer = ByteBuffer::<4>::new();
    buffer.append_byte(1).unwrap();
    buffer.append(&[2, 3, 4]).unwrap();
    assert_eq!(buffer.append_byte(5), Err(BufferError::CapacityExceeded));
    assert_eq!(buffer.append(&[5]), Err(BufferError::CapacityExceeded));
    assert_eq!(buffer.get_result(), &[1, 2, 3, 4]);
    assert_eq!(buffer.append(&[]), Ok(()));
}

#[test]
fn append_that_does_not_fit_writes_nothing() {
    let mut buffer = ByteBuffer::<4>::new();
    buffer.append(&[1, 2]).unwrap();
    assert_eq!(buffer.append(&[3, 4, 5]), Err(BufferError::CapacityExceeded));
    assert_eq!(buffer.get_result(), &[1, 2]);
}

#[test]
fn invalid_truncations_leave_buffer_alone() {
    let mut buffer = ByteBuffer::<8>::new();
    buffer.append(&[1, 2, 3]).unwrap();
    assert_eq!(buffer.truncate(0), Err(BufferError::InvalidTruncate));
    assert_eq!(buffer.get_result(), &[1, 2, 3]);
    assert_eq!(buffer.truncate(4), Err(BufferError::InvalidTruncate));
    assert_eq!(buffer.get_result(), &[1, 2, 3]);
    assert_eq!(buffer.truncate(3), Ok(()));
    assert_eq!(buffer.get_result(), &[]);
    assert_eq!(buffer.truncate(1), Err(BufferError::InvalidTruncate));
}
