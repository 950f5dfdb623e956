use lgres::{MemorySource, Source};

#[test]
fn memory_source_reads_in_order() {
    let mut source = MemorySource::new(vec![1, 2, 3, 4, 5]);
    assert_eq!(source.read_exact(2).unwrap(), vec![1, 2]);
    assert_eq!(source.read_exact(3).unwrap(), vec![3, 4, 5]);
}

#[test]
fn memory_source_seeks_to_absolute_offsets() {
    let mut source = MemorySource::new(vec![10, 20, 30, 40]);
    source.seek(2).unwrap();
    assert_eq!(source.read_exact(2).unwrap(), vec![30, 40]);
    source.seek(0).unwrap();
    assert_eq!(source.read_exact(1).unwrap(), vec![10]);
    source.seek(1).unwrap();
    assert_eq!(source.read_exact(1).unwrap(), vec![20]);
}

#[test]
fn memory_source_fails_past_the_end() {
    let mut source = MemorySource::new(vec![1, 2, 3]);
    source.seek(2).unwrap();
    let error = source.read_exact(2).unwrap_err();
    assert_eq!(error.kind(), std::io::ErrorKind::UnexpectedEof);
}

#[test]
fn memory_source_reads_up_to_the_last_byte() {
    let mut source = MemorySource::new(vec![1, 2, 3]);
    source.seek(1).unwrap();
    assert_eq!(source.read_exact(2).unwrap(), vec![2, 3]);
    assert!(source.read_exact(1).is_err());
}

#[test]
fn memory_source_seeks_beyond_the_end() {
    let mut source = MemorySource::new(vec![1, 2, 3]);
    assert!(source.seek(1000).is_ok());
    assert!(source.read_exact(1).is_err());
    assert!(source.seek(u64::MAX).is_ok());
    assert!(source.read_exact(1).is_err());
}

#[test]
fn memory_source_reads_nothing_anywhere() {
    let mut source = MemorySource::new(vec![1, 2, 3]);
    source.seek(1000).unwrap();
    assert_eq!(source.read_exact(0).unwrap(), Vec::<u8>::new());
    let mut empty = MemorySource::new(Vec::new());
    assert_eq!(empty.read_exact(0).unwrap(), Vec::<u8>::new());
    assert!(empty.read_exact(1).is_err());
}

#[test]
fn memory_source_gives_its_bytes_back() {
    let mut source = MemorySource::new(vec![7, 8, 9]);
    source.seek(1).unwrap();
    let _ = source.read_exact(1).unwrap();
    assert_eq!(source.into_inner(), vec![7, 8, 9]);
}
