use lgres::{DirectoryHeader, DirectoryList, ErrorKind, MemorySource, Source};

fn entry_bytes(id: u16, uncompressed: u32, flags: u8, compressed: u32, res_type: u8) -> Vec<u8> {
    let mut bytes = id.to_le_bytes().to_vec();
    bytes.extend_from_slice(&uncompressed.to_le_bytes()[..3]);
    bytes.push(flags);
    bytes.extend_from_slice(&compressed.to_le_bytes()[..3]);
    bytes.push(res_type);
    bytes
}

fn header(num_entries: u16, data_offset: u32) -> DirectoryHeader {
    let mut bytes = num_entries.to_le_bytes().to_vec();
    bytes.extend_from_slice(&data_offset.to_le_bytes());
    DirectoryHeader::from_bytes(&bytes).unwrap()
}

fn list(data_offset: u32, entries: &[Vec<u8>]) -> (DirectoryList, Vec<u16>) {
    let mut bytes = Vec::new();
    for entry in entries {
        bytes.extend_from_slice(entry);
    }
    let mut source = MemorySource::new(bytes);
    DirectoryList::from_reader(header(entries.len() as u16, data_offset), &mut source).unwrap()
}

#[test]
fn offsets_add_up_compressed_lengths() {
    let (directory, _) = list(
        200,
        &[entry_bytes(1, 10, 0, 10, 1), entry_bytes(2, 0, 0, 0, 1), entry_bytes(3, 25, 0, 25, 1)],
    );
    assert_eq!(directory.offset_for_index(0), Some(200));
    assert_eq!(directory.offset_for_index(1), Some(210));
    assert_eq!(directory.offset_for_index(2), Some(210));
    assert_eq!(directory.offset_for_index(3), None);
    assert_eq!(directory.data_offset(), 200);
}

#[test]
fn third_resource_begins_behind_the_first_three_lengths() {
    let (directory, _) = list(
        200,
        &[
            entry_bytes(1, 10, 0, 10, 1),
            entry_bytes(2, 0, 0, 0, 1),
            entry_bytes(3, 25, 0, 25, 1),
            entry_bytes(4, 1, 0, 1, 1),
        ],
    );
    assert_eq!(directory.offset_for_index(3), Some(235));
    assert_eq!(directory.locate(4), Some((3, 235)));
}

#[test]
fn offsets_use_the_compressed_length() {
    let (directory, _) = list(
        50,
        &[entry_bytes(1, 1000, 0, 7, 1), entry_bytes(2, 3, 0, 900, 1), entry_bytes(3, 5, 0, 5, 1)],
    );
    assert_eq!(directory.offset_for_index(1), Some(57));
    assert_eq!(directory.offset_for_index(2), Some(957));
}

#[test]
fn deleted_entries_take_their_space() {
    let (directory, _) = list(
        100,
        &[entry_bytes(1, 4, 0, 4, 1), entry_bytes(0, 30, 0, 30, 1), entry_bytes(2, 6, 0, 6, 1)],
    );
    assert_eq!(directory.locate(2), Some((2, 134)));
    assert_eq!(directory.locate(0), Some((1, 104)));
}

#[test]
fn locate_finds_the_first_entry_with_the_id() {
    let (directory, _) = list(
        10,
        &[entry_bytes(5, 1, 0, 1, 1), entry_bytes(9, 2, 0, 2, 1), entry_bytes(9, 3, 0, 3, 1)],
    );
    assert_eq!(directory.locate(5), Some((0, 10)));
    assert_eq!(directory.locate(9), Some((1, 11)));
    assert_eq!(directory.locate(6), None);
    assert_eq!(directory.locate(0), None);
}

#[test]
fn offsets_do_not_wrap_at_32_bits() {
    let (directory, _) = list(
        0xffff_ffff,
        &[entry_bytes(1, 0, 0, 0x00ff_ffff, 1), entry_bytes(2, 0, 0, 0x00ff_ffff, 1)],
    );
    assert_eq!(directory.offset_for_index(1), Some(0xffff_ffff + 0x00ff_ffff));
    assert_eq!(directory.locate(2), Some((1, 0x1_00ff_fffe)));
}

#[test]
fn entries_keep_file_order() {
    let (directory, _) = list(
        0,
        &[entry_bytes(30, 1, 0, 1, 1), entry_bytes(10, 2, 0, 2, 2), entry_bytes(20, 3, 0, 3, 3)],
    );
    let ids: Vec<usize> = directory.entries().iter().map(|entry| entry.id()).collect();
    assert_eq!(ids, vec![30, 10, 20]);
}

#[test]
fn empty_directory_reads_nothing() {
    let mut source = MemorySource::new(vec![1, 2, 3]);
    let (directory, preload) = DirectoryList::from_reader(header(0, 64), &mut source).unwrap();
    assert!(directory.entries().is_empty());
    assert!(preload.is_empty());
    assert_eq!(directory.offset_for_index(0), None);
    assert_eq!(source.read_exact(3).unwrap(), vec![1, 2, 3]);
}

#[test]
fn directory_is_read_where_the_stream_stands() {
    let mut bytes = vec![0xaa; 4];
    bytes.extend_from_slice(&entry_bytes(1, 2, 0, 2, 1));
    bytes.extend_from_slice(&entry_bytes(2, 3, 0, 3, 1));
    bytes.push(0x55);
    let mut source = MemorySource::new(bytes);
    source.seek(4).unwrap();
    let (directory, _) = DirectoryList::from_reader(header(2, 0), &mut source).unwrap();
    assert_eq!(directory.entries().len(), 2);
    assert_eq!(directory.entries()[1].id(), 2);
    assert_eq!(source.read_exact(1).unwrap(), vec![0x55]);
}

#[test]
fn truncated_directory_is_an_io_error() {
    let mut bytes = entry_bytes(1, 2, 0, 2, 1);
    bytes.extend_from_slice(&entry_bytes(2, 3, 0, 3, 1)[..9]);
    let mut source = MemorySource::new(bytes);
    let error = DirectoryList::from_reader(header(2, 0), &mut source).unwrap_err();
    assert_eq!(error.kind(), ErrorKind::IO);
}

#[test]
fn preload_ids_are_collected_in_directory_order() {
    let (_, preload) = list(
        0,
        &[
            entry_bytes(4, 1, 0x08, 1, 1),
            entry_bytes(2, 1, 0x00, 1, 1),
            entry_bytes(0, 1, 0x08, 1, 1),
            entry_bytes(9, 1, 0x18, 1, 1),
            entry_bytes(3, 1, 0x10, 1, 1),
            entry_bytes(1, 1, 0x09, 1, 1),
            entry_bytes(4, 1, 0x08, 1, 1),
        ],
    );
    assert_eq!(preload, vec![4, 9, 1, 4]);
}
