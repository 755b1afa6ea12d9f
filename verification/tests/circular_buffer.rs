use circular_buffer::{CircularBuffer, Error};

#[test]
fn fresh_buffer_is_empty() {
    for capacity in [1usize, 2, 3, 7, 64] {
        let mut buffer: CircularBuffer<i32> = CircularBuffer::new(capacity);
        assert_eq!(buffer.read(), Err(Error::EmptyBuffer));
    }
}

#[test]
fn writes_fill_exactly_to_capacity() {
    let capacity: usize = 3;
    let mut buffer: CircularBuffer<i32> = CircularBuffer::new(capacity);
    for value in 0..capacity as i32 {
        assert_eq!(buffer.write(value), Ok(()));
    }
    assert_eq!(buffer.write(99), Err(Error::FullBuffer));
}

#[test]
fn single_slot_fills_immediately() {
    let mut buffer: CircularBuffer<i32> = CircularBuffer::new(1);
    assert_eq!(buffer.write(10), Ok(()));
    assert_eq!(buffer.write(11), Err(Error::FullBuffer));
}

#[test]
fn reads_return_written_elements_in_order() {
    let mut buffer: CircularBuffer<i32> = CircularBuffer::new(5);
    for value in [10, 20, 30, 40] {
        assert_eq!(buffer.write(value), Ok(()));
    }
    for value in [10, 20, 30, 40] {
        assert_eq!(buffer.read(), Ok(value));
    }
    assert_eq!(buffer.read(), Err(Error::EmptyBuffer));
}

#[test]
fn write_read_write_returns_most_recent() {
    let mut buffer: CircularBuffer<i32> = CircularBuffer::new(1);
    assert_eq!(buffer.write(1), Ok(()));
    assert_eq!(buffer.read(), Ok(1));
    assert_eq!(buffer.write(2), Ok(()));
    assert_eq!(buffer.read(), Ok(2));
}

#[test]
fn interleaved_operations_wrap_around_the_slot_array() {
    let mut buffer: CircularBuffer<i32> = CircularBuffer::new(2);
    assert_eq!(buffer.write(1), Ok(()));
    assert_eq!(buffer.write(2), Ok(()));
    assert_eq!(buffer.read(), Ok(1));
    // The next write lands in the vacated first slot.
    assert_eq!(buffer.write(3), Ok(()));
    assert_eq!(buffer.read(), Ok(2));
    assert_eq!(buffer.read(), Ok(3));
    assert_eq!(buffer.read(), Err(Error::EmptyBuffer));
}

#[test]
fn overwrite_acts_like_write_when_not_full() {
    let mut buffer: CircularBuffer<i32> = CircularBuffer::new(3);
    buffer.overwrite(1);
    buffer.overwrite(2);
    assert_eq!(buffer.read(), Ok(1));
    assert_eq!(buffer.read(), Ok(2));
    assert_eq!(buffer.read(), Err(Error::EmptyBuffer));
}

#[test]
fn overwrite_on_full_discards_only_the_oldest() {
    let mut buffer: CircularBuffer<i32> = CircularBuffer::new(3);
    assert_eq!(buffer.write(1), Ok(()));
    assert_eq!(buffer.write(2), Ok(()));
    assert_eq!(buffer.write(3), Ok(()));
    buffer.overwrite(4);
    // Still full: a plain write is refused.
    assert_eq!(buffer.write(5), Err(Error::FullBuffer));
    // The discarded element was 1; the second-oldest comes out first.
    assert_eq!(buffer.read(), Ok(2));
    assert_eq!(buffer.read(), Ok(3));
    assert_eq!(buffer.read(), Ok(4));
    assert_eq!(buffer.read(), Err(Error::EmptyBuffer));
}

#[test]
fn clear_empties_every_state() {
    // Empty buffer.
    let mut buffer: CircularBuffer<i32> = CircularBuffer::new(3);
    buffer.clear();
    assert_eq!(buffer.read(), Err(Error::EmptyBuffer));
    // Partially filled buffer.
    assert_eq!(buffer.write(1), Ok(()));
    buffer.clear();
    assert_eq!(buffer.read(), Err(Error::EmptyBuffer));
    // Full buffer.
    assert_eq!(buffer.write(1), Ok(()));
    assert_eq!(buffer.write(2), Ok(()));
    assert_eq!(buffer.write(3), Ok(()));
    buffer.clear();
    assert_eq!(buffer.read(), Err(Error::EmptyBuffer));
    // The capacity is kept: three writes fit again.
    assert_eq!(buffer.write(4), Ok(()));
    assert_eq!(buffer.write(5), Ok(()));
    assert_eq!(buffer.write(6), Ok(()));
    assert_eq!(buffer.write(7), Err(Error::FullBuffer));
    assert_eq!(buffer.read(), Ok(4));
}

#[test]
fn scenario_capacity_three() {
    let mut buffer: CircularBuffer<i32> = CircularBuffer::new(3);
    assert_eq!(buffer.write(1), Ok(()));
    assert_eq!(buffer.write(2), Ok(()));
    assert_eq!(buffer.write(3), Ok(()));
    assert_eq!(buffer.write(4), Err(Error::FullBuffer));
    assert_eq!(buffer.read(), Ok(1));
    assert_eq!(buffer.write(4), Ok(()));
    assert_eq!(buffer.read(), Ok(2));
    assert_eq!(buffer.read(), Ok(3));
    assert_eq!(buffer.read(), Ok(4));
    assert_eq!(buffer.read(), Err(Error::EmptyBuffer));
}

#[test]
fn scenario_capacity_two() {
    let mut buffer: CircularBuffer<i32> = CircularBuffer::new(2);
    assert_eq!(buffer.write(1), Ok(()));
    assert_eq!(buffer.write(2), Ok(()));
    buffer.overwrite(3);
    assert_eq!(buffer.read(), Ok(2));
    assert_eq!(buffer.read(), Ok(3));
    assert_eq!(buffer.read(), Err(Error::EmptyBuffer));
}

#[test]
fn scenario_capacity_one() {
    let mut buffer: CircularBuffer<i32> = CircularBuffer::new(1);
    assert_eq!(buffer.write(5), Ok(()));
    assert_eq!(buffer.write(6), Err(Error::FullBuffer));
    buffer.overwrite(6);
    assert_eq!(buffer.read(), Ok(6));
}

#[test]
fn zero_capacity_buffer_stores_nothing() {
    let mut buffer: CircularBuffer<i32> = CircularBuffer::new(0);
    assert_eq!(buffer.read(), Err(Error::EmptyBuffer));
    assert_eq!(buffer.write(1), Err(Error::FullBuffer));
    buffer.overwrite(2);
    assert_eq!(buffer.read(), Err(Error::EmptyBuffer));
    buffer.clear();
    assert_eq!(buffer.read(), Err(Error::EmptyBuffer));
}

#[test]
fn owned_elements_move_in_and_out() {
    let mut buffer: CircularBuffer<String> = CircularBuffer::new(2);
    assert_eq!(buffer.write(String::from("oldest")), Ok(()));
    assert_eq!(buffer.write(String::from("newer")), Ok(()));
    buffer.overwrite(String::from("newest"));
    assert_eq!(buffer.read(), Ok(String::from("newer")));
    assert_eq!(buffer.read(), Ok(String::from("newest")));
    assert_eq!(buffer.read(), Err(Error::EmptyBuffer));
}
