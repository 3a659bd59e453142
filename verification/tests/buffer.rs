use rpcperf::buffer::Buffer;

#[test]
fn basic() {
    let mut buffer = Buffer::<usize>::new(4);
    for i in 1..=4 {
        assert!(buffer.try_push(i).is_ok());
    }
    for i in 1..=4 {
        assert_eq!(buffer.try_pop(), Ok(Some(i)));
    }
    assert_eq!(buffer.try_pop(), Ok(None));
}

#[test]
fn blocking() {
    let mut buffer = Buffer::<usize>::new(4);
    for i in 1..=4 {
        buffer.push(i);
    }
    for i in 1..=4 {
        assert_eq!(buffer.pop(), Some(i));
    }
    assert_eq!(buffer.pop(), None);
}

#[test]
fn wrapping() {
    let mut buffer = Buffer::<usize>::new(4);
    for i in 1..=7 {
        assert!(buffer.try_push(i).is_ok());
    }
    assert_eq!(buffer.as_vec(), vec![4, 5, 6, 7]);
    for i in 4..=7 {
        assert_eq!(buffer.try_pop(), Ok(Some(i)));
    }
    assert_eq!(buffer.pop(), None);
}

#[test]
fn chasing() {
    let mut buffer = Buffer::<usize>::new(4);
    for i in 1..=100 {
        assert!(buffer.try_push(i).is_ok());
        assert_eq!(buffer.try_pop(), Ok(Some(i)));
    }
    assert_eq!(buffer.pop(), None);
}

#[test]
fn buffer_clear_and_empty_capacity() {
    let mut buffer = Buffer::<u8>::new(2);
    buffer.push(1);
    buffer.clear();
    assert!(buffer.as_vec().is_empty());
    let mut empty = Buffer::<u8>::new(0);
    assert_eq!(empty.pop(), None);
    assert!(empty.as_vec().is_empty());
}
