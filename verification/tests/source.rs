use cyd_player::source::{read_exact, ByteSource, MemoryError, MemorySource, ReadExactError, SeekFrom};

#[test]
fn memory_source_reads_in_order() {
    let mut source = MemorySource::new(vec![1, 2, 3, 4, 5]);
    let mut buf = [9u8; 8];
    assert_eq!(source.read(&mut buf, 2, 5), Ok(3));
    assert_eq!(buf, [9, 9, 1, 2, 3, 9, 9, 9]);
    assert_eq!(source.offset(), 3);
    assert_eq!(source.read(&mut buf, 0, 8), Ok(2));
    assert_eq!(buf, [4, 5, 1, 2, 3, 9, 9, 9]);
    assert_eq!(source.read(&mut buf, 0, 8), Ok(0));
    assert_eq!(source.read(&mut buf, 3, 3), Ok(0));
}

#[test]
fn memory_source_hands_out_chunks() {
    let mut source = MemorySource::with_chunk(vec![1, 2, 3, 4, 5], 2);
    let mut buf = [0u8; 5];
    assert_eq!(source.read(&mut buf, 0, 5), Ok(2));
    assert_eq!(source.read(&mut buf, 2, 5), Ok(2));
    assert_eq!(source.read(&mut buf, 4, 5), Ok(1));
    assert_eq!(source.read(&mut buf, 0, 5), Ok(0));
    assert_eq!(buf, [1, 2, 3, 4, 5]);
}

#[test]
fn a_chunk_of_zero_counts_as_one() {
    let mut source = MemorySource::with_chunk(vec![7, 8], 0);
    let mut buf = [0u8; 2];
    assert_eq!(source.read(&mut buf, 0, 2), Ok(1));
    assert_eq!(buf, [7, 0]);
}

#[test]
fn memory_source_seeks() {
    let mut source = MemorySource::new(vec![10, 11, 12, 13]);
    let mut buf = [0u8; 1];
    assert_eq!(source.seek(SeekFrom::Start(2)), Ok(2));
    assert_eq!(source.read(&mut buf, 0, 1), Ok(1));
    assert_eq!(buf, [12]);
    assert_eq!(source.seek(SeekFrom::Current(-2)), Ok(1));
    assert_eq!(source.read(&mut buf, 0, 1), Ok(1));
    assert_eq!(buf, [11]);
    assert_eq!(source.seek(SeekFrom::End(-1)), Ok(3));
    assert_eq!(source.read(&mut buf, 0, 1), Ok(1));
    assert_eq!(buf, [13]);
    assert_eq!(source.seek(SeekFrom::End(3)), Ok(7));
    assert_eq!(source.read(&mut buf, 0, 1), Ok(0));
    assert_eq!(source.seek(SeekFrom::Current(1)), Ok(8));
    assert_eq!(source.seek_count(), 5);
}

#[test]
fn memory_source_refuses_seeks_out_of_range() {
    let mut source = MemorySource::new(vec![10, 11, 12, 13]);
    assert_eq!(source.seek(SeekFrom::End(-5)), Err(MemoryError::OutOfRange));
    assert_eq!(source.seek_count(), 0);
    assert_eq!(source.seek(SeekFrom::Current(-1)), Err(MemoryError::OutOfRange));
    assert_eq!(source.seek(SeekFrom::Current(i64::MIN)), Err(MemoryError::OutOfRange));
    assert_eq!(source.seek(SeekFrom::Start(u64::MAX)), Ok(u64::MAX));
    assert_eq!(source.seek(SeekFrom::Current(1)), Err(MemoryError::OutOfRange));
    assert_eq!(source.seek(SeekFrom::End(i64::MAX)), Ok(4 + i64::MAX as u64));
    assert_eq!(source.offset(), 4 + i64::MAX as u64);
}

#[test]
fn a_failing_source_fails_after_its_reads() {
    let mut source = MemorySource::failing_after(vec![1, 2, 3], 1);
    let mut buf = [0u8; 2];
    assert_eq!(source.read(&mut buf, 0, 2), Ok(2));
    assert_eq!(source.read(&mut buf, 0, 2), Err(MemoryError::Broken));
    assert_eq!(source.read(&mut buf, 0, 2), Err(MemoryError::Broken));
    assert_eq!(buf, [1, 2]);
}

#[test]
fn read_exact_fills_the_range_across_short_reads() {
    let mut source = MemorySource::with_chunk(vec![1, 2, 3, 4, 5, 6], 4);
    let mut buf = [0u8; 7];
    assert!(matches!(read_exact(&mut source, &mut buf, 1, 6), Ok(())));
    assert_eq!(buf, [0, 1, 2, 3, 4, 5, 0]);
    assert_eq!(source.offset(), 5);
}

#[test]
fn read_exact_reports_the_end_and_keeps_what_it_read() {
    let mut source = MemorySource::new(vec![1, 2, 3]);
    let mut buf = [0u8; 5];
    assert!(matches!(
        read_exact(&mut source, &mut buf, 0, 5),
        Err(ReadExactError::UnexpectedEof)
    ));
    assert_eq!(buf, [1, 2, 3, 0, 0]);
    assert_eq!(source.offset(), 3);
}

#[test]
fn read_exact_of_nothing_succeeds_at_the_end() {
    let mut source = MemorySource::new(vec![]);
    let mut buf = [0u8; 2];
    assert!(matches!(read_exact(&mut source, &mut buf, 1, 1), Ok(())));
}

#[test]
fn read_exact_hands_on_the_source_error() {
    let mut source = MemorySource::failing_after(vec![1, 2, 3], 0);
    let mut buf = [0u8; 2];
    assert!(matches!(
        read_exact(&mut source, &mut buf, 0, 2),
        Err(ReadExactError::Other(MemoryError::Broken))
    ));
}
