use cyd_player::reader::{ReadError, ZBufferedReader};
use cyd_player::source::{MemoryError, MemorySource, ReadExactError, SeekFrom};

fn counting(n: usize) -> Vec<u8> {
    (0..n).map(|i| (i % 251) as u8).collect()
}

#[test]
fn read_exact_fills_and_then_reports_the_end() {
    for n in [1usize, 3, 4, 5, 16, 17] {
        let mut reader = ZBufferedReader::<_, 4>::new(MemorySource::new(counting(n)));
        let mut buf = vec![0u8; n];
        assert!(matches!(reader.read_exact(&mut buf, 0, n), Ok(())));
        assert_eq!(buf, counting(n));
        let mut one = [0u8; 1];
        assert!(matches!(
            reader.read_exact(&mut one, 0, 1),
            Err(ReadExactError::UnexpectedEof)
        ));
        assert!(matches!(reader.read_exact(&mut one, 0, 0), Ok(())));
    }
}

#[test]
fn read_exact_that_comes_short_keeps_what_was_left() {
    let mut reader = ZBufferedReader::<_, 4>::new(MemorySource::new(vec![1, 2, 3]));
    let mut buf = [9u8; 6];
    assert!(matches!(
        reader.read_exact(&mut buf, 1, 6),
        Err(ReadExactError::UnexpectedEof)
    ));
    assert_eq!(buf, [9, 1, 2, 3, 9, 9]);
}

#[test]
fn a_small_read_reads_ahead() {
    let mut reader = ZBufferedReader::<_, 8>::new(MemorySource::new(counting(20)));
    let mut buf = [0u8; 3];
    assert!(matches!(reader.read(&mut buf, 0, 3), Ok(3)));
    assert_eq!(buf, [0, 1, 2]);
    assert_eq!(reader.available(), 5);
    assert_eq!(reader.z_position(), 3);
}

#[test]
fn a_read_takes_no_more_than_is_buffered() {
    let mut reader = ZBufferedReader::<_, 8>::new(MemorySource::new(counting(20)));
    let mut buf = [0u8; 16];
    assert!(matches!(reader.read(&mut buf, 0, 3), Ok(3)));
    assert!(matches!(reader.read(&mut buf, 3, 16), Ok(5)));
    assert_eq!(reader.available(), 0);
    assert_eq!(&buf[..8], &counting(8)[..]);
}

#[test]
fn a_large_read_with_nothing_buffered_goes_past_the_buffer() {
    let mut reader = ZBufferedReader::<_, 8>::new(MemorySource::new(counting(20)));
    let mut buf = [0u8; 12];
    assert!(matches!(reader.read(&mut buf, 0, 12), Ok(12)));
    assert_eq!(&buf[..], &counting(12)[..]);
    assert_eq!(reader.available(), 0);
    assert_eq!(reader.z_position(), 12);
    let mut exact = [0u8; 8];
    assert!(matches!(reader.read(&mut exact, 0, 8), Ok(8)));
    assert_eq!(reader.available(), 0);
    assert_eq!(&exact[..], &counting(20)[12..]);
    assert!(matches!(reader.read(&mut exact, 0, 8), Ok(0)));
}

#[test]
fn seek_drops_what_was_read_ahead() {
    let mut reader = ZBufferedReader::<_, 8>::new(MemorySource::new(counting(20)));
    let mut buf = [0u8; 2];
    assert!(matches!(reader.read(&mut buf, 0, 2), Ok(2)));
    assert_eq!(reader.available(), 6);
    assert!(matches!(reader.seek(15), Ok(15)));
    assert_eq!(reader.available(), 0);
    assert_eq!(reader.z_position(), 15);
    assert!(matches!(reader.read(&mut buf, 0, 2), Ok(2)));
    assert_eq!(buf, [15, 16]);
    assert!(matches!(reader.seek(0), Ok(0)));
    assert!(matches!(reader.read(&mut buf, 0, 2), Ok(2)));
    assert_eq!(buf, [0, 1]);
}

#[test]
fn a_seek_from_the_current_position_counts_from_the_next_byte() {
    let mut reader = ZBufferedReader::<_, 8>::new(MemorySource::new(counting(20)));
    let mut buf = [0u8; 2];
    assert!(matches!(reader.read(&mut buf, 0, 2), Ok(2)));
    assert!(matches!(reader.z_seek(SeekFrom::Current(3)), Ok(5)));
    assert_eq!(reader.read_byte_no_error(), 5);
    assert!(matches!(reader.z_seek(SeekFrom::Current(-6)), Ok(0)));
    assert_eq!(reader.read_byte_no_error(), 0);
    assert!(matches!(reader.z_seek(SeekFrom::End(-1)), Ok(19)));
    assert_eq!(reader.read_byte_no_error(), 19);
    assert!(matches!(reader.is_eof(), Ok(true)));
}

#[test]
fn a_seek_that_cannot_be_written_down_changes_nothing() {
    let mut reader = ZBufferedReader::<_, 8>::new(MemorySource::new(counting(20)));
    assert_eq!(reader.read_byte_no_error(), 0);
    assert!(matches!(
        reader.z_seek(SeekFrom::Current(i64::MIN)),
        Err(ReadError::SeekRange)
    ));
    assert_eq!(reader.available(), 7);
    assert_eq!(reader.read_byte_no_error(), 1);
}

#[test]
fn a_seek_that_the_source_refuses_is_reported() {
    let mut reader = ZBufferedReader::<_, 8>::new(MemorySource::new(counting(4)));
    assert!(matches!(
        reader.z_seek(SeekFrom::End(-5)),
        Err(ReadError::Seek(MemoryError::OutOfRange))
    ));
}

#[test]
fn consume_takes_no_more_than_is_buffered() {
    let mut reader = ZBufferedReader::<_, 8>::new(MemorySource::new(counting(20)));
    assert_eq!(reader.fill_buf().unwrap(), &counting(8)[..]);
    reader.consume(3);
    assert_eq!(reader.available(), 5);
    assert_eq!(reader.z_position(), 3);
    assert_eq!(reader.fill_buf().unwrap(), &counting(8)[3..]);
    reader.consume(100);
    assert_eq!(reader.available(), 0);
    assert_eq!(reader.z_position(), 8);
    assert_eq!(reader.fill_buf().unwrap(), &counting(16)[8..]);
}

#[test]
fn fill_buf_is_empty_at_the_end() {
    let mut reader = ZBufferedReader::<_, 8>::new(MemorySource::new(vec![]));
    assert!(reader.fill_buf().unwrap().is_empty());
    assert!(matches!(reader.is_eof(), Ok(true)));
    assert_eq!(reader.read_byte_no_error(), 0);
    assert_eq!(reader.z_position(), 0);
}

#[test]
fn read_bytes_reads_until_full_or_the_end() {
    let mut reader = ZBufferedReader::<_, 4>::new(MemorySource::with_chunk(counting(10), 3));
    let mut buf = [0u8; 7];
    assert!(matches!(reader.read_bytes(&mut buf), Ok(7)));
    assert_eq!(&buf[..], &counting(7)[..]);
    let mut rest = [0xEEu8; 7];
    assert!(matches!(reader.read_bytes(&mut rest), Ok(3)));
    assert_eq!(rest, [7, 8, 9, 0xEE, 0xEE, 0xEE, 0xEE]);
    assert!(matches!(reader.read_bytes(&mut rest), Ok(0)));
    assert_eq!(reader.z_position(), 10);
}

#[test]
fn read_exact_bytes_says_how_much_was_missing() {
    let mut reader = ZBufferedReader::<_, 4>::new(MemorySource::new(counting(10)));
    let mut buf = [0u8; 6];
    assert!(matches!(reader.read_exact_bytes(&mut buf), Ok(())));
    assert_eq!(&buf[..], &counting(6)[..]);
    assert!(matches!(
        reader.read_exact_bytes(&mut buf),
        Err(ReadError::NotEnoughBytes(6, 4))
    ));
    assert_eq!(buf, [6, 7, 8, 9, 4, 5]);
}

#[test]
fn read_const_bytes_reads_arrays() {
    let mut reader = ZBufferedReader::<_, 4>::new(MemorySource::new(counting(5)));
    let mut first = [0u8; 3];
    assert!(matches!(reader.read_const_bytes(&mut first), Ok(())));
    assert_eq!(first, [0, 1, 2]);
    let mut second = [0xEEu8; 3];
    reader.read_const_bytes_no_error(&mut second);
    assert_eq!(second, [3, 4, 0xEE]);
    let mut third = [0xEEu8; 3];
    assert!(matches!(
        reader.read_const_bytes(&mut third),
        Err(ReadError::NotEnoughBytes(3, 0))
    ));
    assert_eq!(third, [0xEE; 3]);
}

#[test]
fn peek_does_not_hand_out() {
    let mut reader = ZBufferedReader::<_, 8>::new(MemorySource::with_chunk(counting(20), 3));
    let mut buf = [0u8; 5];
    assert!(matches!(reader.peek_bytes(&mut buf), Ok(5)));
    assert_eq!(buf, [0, 1, 2, 3, 4]);
    assert_eq!(reader.z_position(), 0);
    assert_eq!(reader.read_byte_no_error(), 0);
    assert_eq!(reader.read_byte_no_error(), 1);
    assert!(matches!(reader.peek_exact_bytes(&mut buf), Ok(())));
    assert_eq!(buf, [2, 3, 4, 5, 6]);
    let mut all = [0u8; 18];
    assert!(matches!(reader.read_bytes(&mut all), Ok(18)));
    assert_eq!(&all[..], &counting(20)[2..]);
}

#[test]
fn peek_looks_across_a_refill() {
    let mut reader = ZBufferedReader::<_, 8>::new(MemorySource::new(counting(20)));
    let mut six = [0u8; 6];
    assert!(matches!(reader.read_bytes(&mut six), Ok(6)));
    assert_eq!(reader.available(), 2);
    let mut buf = [0u8; 8];
    assert!(matches!(reader.peek_bytes(&mut buf), Ok(8)));
    assert_eq!(&buf[..], &counting(14)[6..]);
    assert_eq!(reader.z_position(), 6);
    assert!(matches!(reader.read_bytes(&mut buf), Ok(8)));
    assert_eq!(&buf[..], &counting(14)[6..]);
}

#[test]
fn peek_is_bounded_by_the_buffer() {
    let mut reader = ZBufferedReader::<_, 4>::new(MemorySource::new(counting(20)));
    let mut buf = [0u8; 5];
    assert!(matches!(
        reader.peek_bytes(&mut buf),
        Err(ReadError::NotEnoughBuffer(4, 5))
    ));
    assert!(matches!(
        reader.peek_exact_bytes(&mut buf),
        Err(ReadError::NotEnoughBuffer(4, 5))
    ));
    assert_eq!(reader.read_byte_no_error(), 0);
}

#[test]
fn peek_near_the_end_says_what_is_left() {
    let mut reader = ZBufferedReader::<_, 8>::new(MemorySource::new(vec![1, 2]));
    let mut buf = [0xEEu8; 4];
    assert!(matches!(reader.peek_bytes(&mut buf), Ok(2)));
    assert_eq!(buf, [1, 2, 0xEE, 0xEE]);
    assert!(matches!(
        reader.peek_exact_bytes(&mut buf),
        Err(ReadError::NotEnoughBytes(4, 2))
    ));
    assert!(matches!(reader.is_eof(), Ok(false)));
}

#[test]
fn read_remaining_takes_everything() {
    let mut reader = ZBufferedReader::<_, 4>::new(MemorySource::with_chunk(counting(11), 3));
    assert_eq!(reader.read_byte_no_error(), 0);
    let mut sink = vec![0xAA];
    assert!(matches!(reader.read_remaining(&mut sink), Ok(10)));
    assert_eq!(&sink[1..], &counting(11)[1..]);
    assert_eq!(sink[0], 0xAA);
    assert!(matches!(reader.read_remaining(&mut sink), Ok(0)));
    assert_eq!(reader.z_position(), 11);
}

#[test]
fn source_failures_are_reported() {
    let mut reader = ZBufferedReader::<_, 4>::new(MemorySource::failing_after(counting(10), 1));
    let mut buf = [0u8; 6];
    assert!(matches!(reader.read(&mut buf, 0, 2), Ok(2)));
    assert!(matches!(reader.read(&mut buf, 0, 2), Ok(2)));
    assert!(matches!(
        reader.read(&mut buf, 0, 2),
        Err(ReadError::Io(MemoryError::Broken))
    ));
    assert!(matches!(reader.is_eof(), Err(ReadError::Io(MemoryError::Broken))));
    assert!(matches!(
        reader.read_exact(&mut buf, 0, 2),
        Err(ReadExactError::Other(MemoryError::Broken))
    ));
    assert!(matches!(
        reader.read_bytes(&mut buf),
        Err(ReadError::Io(MemoryError::Broken))
    ));
    assert!(matches!(
        reader.peek_bytes(&mut buf[..2]),
        Err(ReadError::Io(MemoryError::Broken))
    ));
    let mut sink = Vec::new();
    assert!(matches!(
        reader.read_remaining(&mut sink),
        Err(ReadError::Io(MemoryError::Broken))
    ));
    assert_eq!(reader.read_byte_no_error(), 0);
}

#[test]
fn a_seek_that_fails_drops_what_was_read_ahead_all_the_same() {
    let mut reader = ZBufferedReader::<_, 8>::new(MemorySource::new(counting(20)));
    assert_eq!(reader.read_byte_no_error(), 0);
    assert_eq!(reader.available(), 7);
    assert!(matches!(
        reader.z_seek(SeekFrom::End(-100)),
        Err(ReadError::Seek(MemoryError::OutOfRange))
    ));
    assert_eq!(reader.available(), 0);
    assert_eq!(reader.read_byte_no_error(), 8);
}
