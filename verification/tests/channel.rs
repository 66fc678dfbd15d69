use snail_os::async_io::{AsyncBuffer, AsyncIo, ConsumeStep, ReadStep, ReadTarget, Wake};
use snail_os::errors::OsError;
use snail_os::{STDERR, STDIN, STDOUT};

#[test]
fn test_write_then_consume_returns_chunks_in_order() {
    let mut chan = AsyncBuffer::new();
    assert_eq!(chan.write(vec![1, 2]), Ok((2, None)));
    assert_eq!(chan.write(vec![3]), Ok((1, None)));
    assert_eq!(
        chan.consume_all(),
        Ok(ConsumeStep::Data(vec![vec![1, 2], vec![3]]))
    );
}

#[test]
fn test_close_then_consume_reports_end_of_stream_twice() {
    let mut chan = AsyncBuffer::new();
    assert_eq!(chan.close(), None);
    assert_eq!(chan.consume_all(), Ok(ConsumeStep::EndOfStream));
    assert_eq!(chan.consume_all(), Ok(ConsumeStep::EndOfStream));
}

#[test]
fn test_write_after_close_fails_with_channel_closed() {
    let mut chan = AsyncBuffer::new();
    assert_eq!(chan.write(vec![1, 2, 3]), Ok((3, None)));
    chan.close();
    assert_eq!(chan.write(vec![4]), Err(OsError::ChannelClosed));
    // the buffered data is still drained after the failed write
    assert_eq!(chan.consume_all(), Ok(ConsumeStep::Data(vec![vec![1, 2, 3]])));
    assert_eq!(chan.consume_all(), Ok(ConsumeStep::EndOfStream));
}

#[test]
fn test_read_into_splits_long_chunk_without_loss() {
    let mut chan = AsyncBuffer::new();
    chan.write(vec![10, 20, 30, 40, 50]).unwrap();
    // capacity 2 < chunk length 5: exactly 2 bytes are copied
    let first = chan.read_promise(0, 2);
    assert_eq!(
        first,
        Ok(ReadStep::Ready(ReadTarget { offset: 0, length: 2 }, vec![10, 20]))
    );
    // the remainder is returned by the next read, in order
    let second = chan.read_promise(0, 8);
    assert_eq!(
        second,
        Ok(ReadStep::Ready(ReadTarget { offset: 0, length: 8 }, vec![30, 40, 50]))
    );
    // nothing is left over
    assert_eq!(chan.consume_all(), Ok(ConsumeStep::Pending));
}

#[test]
fn test_read_into_exact_capacity_consumes_whole_chunk() {
    let mut chan = AsyncBuffer::new();
    chan.write(vec![7, 8]).unwrap();
    assert_eq!(
        chan.read_promise(4, 2),
        Ok(ReadStep::Ready(ReadTarget { offset: 4, length: 2 }, vec![7, 8]))
    );
}

#[test]
fn test_read_into_closed_empty_channel_completes_with_zero_bytes() {
    let mut chan = AsyncBuffer::new();
    chan.close();
    assert_eq!(chan.read_promise(0, 16), Ok(ReadStep::Closed));
}

#[test]
fn test_second_waiter_is_rejected_as_busy() {
    let mut chan = AsyncBuffer::new();
    assert_eq!(chan.consume_all(), Ok(ConsumeStep::Pending));
    assert_eq!(chan.consume_all(), Err(OsError::ChannelBusy));
    assert_eq!(chan.read_promise(0, 4), Err(OsError::ChannelBusy));
}

#[test]
fn test_write_wakes_parked_consumer() {
    let mut chan = AsyncBuffer::new();
    assert_eq!(chan.consume_all(), Ok(ConsumeStep::Pending));
    let (count, wake) = chan.write(vec![5, 6]).unwrap();
    assert_eq!(count, 2);
    assert_eq!(wake, Some(Wake::Notify));
    // the woken consumer re-checks the queue and drains it
    assert_eq!(chan.consume_resume(), ConsumeStep::Data(vec![vec![5, 6]]));
}

#[test]
fn test_close_wakes_parked_consumer_with_end_of_stream() {
    let mut chan = AsyncBuffer::new();
    assert_eq!(chan.consume_all(), Ok(ConsumeStep::Pending));
    assert_eq!(chan.close(), Some(Wake::Notify));
    // a wake does not guarantee data: the re-check reports end of stream
    assert_eq!(chan.consume_resume(), ConsumeStep::EndOfStream);
}

#[test]
fn test_write_delivers_bytes_to_parked_read() {
    let mut chan = AsyncBuffer::new();
    assert_eq!(chan.read_promise(32, 4), Ok(ReadStep::Pending));
    let (count, wake) = chan.write(vec![1, 2, 3, 4, 5, 6]).unwrap();
    assert_eq!(count, 6);
    assert_eq!(
        wake,
        Some(Wake::Drained(ReadTarget { offset: 32, length: 4 }, vec![1, 2, 3, 4]))
    );
    // the split remainder stays queued for the next read
    assert_eq!(
        chan.read_promise(0, 4),
        Ok(ReadStep::Ready(ReadTarget { offset: 0, length: 4 }, vec![5, 6]))
    );
}

#[test]
fn test_table_seeds_conventional_descriptors() {
    let mut io = AsyncIo::new().unwrap();
    assert_eq!(io.write(STDIN, vec![1]), Ok((1, None)));
    assert_eq!(io.write(STDOUT, vec![2]), Ok((1, None)));
    assert_eq!(io.write(STDERR, vec![3]), Ok((1, None)));
    assert_eq!(io.write(3, vec![4]), Err(OsError::NotOpen));
}

#[test]
fn test_open_rejects_open_descriptor_and_reopens_closed_one() {
    let mut io = AsyncIo::new().unwrap();
    assert_eq!(io.open(STDIN), Err(OsError::AlreadyOpen));
    assert_eq!(io.open(3), Ok(()));
    assert_eq!(io.open(3), Err(OsError::AlreadyOpen));
    // close removes the descriptor, after which it can be opened again
    assert_eq!(io.close(3), Ok(None));
    assert_eq!(io.open(3), Ok(()));
}

#[test]
fn test_close_all_closes_every_channel_in_place() {
    let mut io = AsyncIo::new().unwrap();
    io.write(STDOUT, vec![9]).unwrap();
    let wakes = io.close_all();
    assert_eq!(wakes, vec![]);
    // every channel rejects writes now, but stays drainable
    assert_eq!(io.write(STDIN, vec![1]), Err(OsError::ChannelClosed));
    assert_eq!(
        io.consume_all(STDOUT),
        Ok(ConsumeStep::Data(vec![vec![9]]))
    );
    assert_eq!(io.consume_all(STDOUT), Ok(ConsumeStep::EndOfStream));
}

#[test]
fn test_close_all_wakes_parked_consumer() {
    let mut io = AsyncIo::new().unwrap();
    assert_eq!(io.consume_all(STDOUT), Ok(ConsumeStep::Pending));
    let wakes = io.close_all();
    assert_eq!(wakes, vec![(STDOUT, Wake::Notify)]);
    assert_eq!(io.consume_resume(STDOUT), Ok(ConsumeStep::EndOfStream));
}
