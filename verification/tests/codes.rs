use ring_buffer::RingBufferError;

#[test]
fn error_codes_are_stable() {
    assert_eq!(RingBufferError::Full.code(), "RF");
    assert_eq!(RingBufferError::Empty.code(), "RE");
    assert_eq!(RingBufferError::InvalidCapacity.code(), "RC");
}

#[test]
fn error_kinds_are_distinct_values() {
    assert_ne!(RingBufferError::Full, RingBufferError::Empty);
    assert_ne!(RingBufferError::Full, RingBufferError::InvalidCapacity);
    assert_ne!(RingBufferError::Empty, RingBufferError::InvalidCapacity);
    let copy = RingBufferError::Full;
    assert_eq!(copy, RingBufferError::Full);
}
