use lgres::{DirectoryEntry, Error, ErrorKind, MemorySource, Reader, ResourceType};

/// One resource of an archive under construction.
struct Item {
    id: u16,
    flags: u8,
    res_type: u8,
    stored: Vec<u8>,
    uncompressed_len: u32,
}

fn item(id: u16, flags: u8, res_type: u8, data: &[u8]) -> Item {
    Item { id, flags, res_type, stored: data.to_vec(), uncompressed_len: data.len() as u32 }
}

fn file_header(comment: &[u8], dir_header_offset: u32) -> Vec<u8> {
    let mut bytes = b"LG Res File v2\r\n".to_vec();
    let mut field = [0u8; 96];
    field[..comment.len()].copy_from_slice(comment);
    bytes.extend_from_slice(&field);
    bytes.extend_from_slice(&[0u8; 12]);
    bytes.extend_from_slice(&dir_header_offset.to_le_bytes());
    bytes
}

/// An archive whose data segment follows the file header and whose directory
/// stands at the end.
fn archive(comment: &[u8], items: &[Item]) -> Vec<u8> {
    let data_len: usize = items.iter().map(|item| item.stored.len()).sum();
    let mut bytes = file_header(comment, (128 + data_len) as u32);
    for item in items {
        bytes.extend_from_slice(&item.stored);
    }
    bytes.extend_from_slice(&(items.len() as u16).to_le_bytes());
    bytes.extend_from_slice(&128u32.to_le_bytes());
    for item in items {
        bytes.extend_from_slice(&item.id.to_le_bytes());
        bytes.extend_from_slice(&item.uncompressed_len.to_le_bytes()[..3]);
        bytes.push(item.flags);
        bytes.extend_from_slice(&(item.stored.len() as u32).to_le_bytes()[..3]);
        bytes.push(item.res_type);
    }
    bytes
}

fn open(bytes: Vec<u8>) -> Result<Reader<MemorySource>, Error> {
    Reader::new(MemorySource::new(bytes))
}

fn five() -> Vec<Item> {
    vec![
        item(1, 0, 1, b"first"),
        item(2, 0, 2, b""),
        item(3, 0, 3, b"the third one"),
        item(4, 0, 7, b"4"),
        item(5, 0, 48, b"fifth and last"),
    ]
}

#[test]
fn opens_a_small_archive() {
    let mut reader = open(archive(b"hello", &[item(7, 0, 1, b"abcde")])).unwrap();
    assert!(reader.contains(7));
    assert!(!reader.contains(8));
    assert!(reader.loaded(7).is_none());
    let resource = reader.get(7).unwrap();
    assert_eq!(resource.data(), b"abcde");
    assert_eq!(resource.resource_type(), ResourceType::String);
    assert_eq!(reader.get(8).unwrap_err().kind(), ErrorKind::ResourceNotFound);
}

#[test]
fn directory_has_the_entries_of_the_file_in_file_order() {
    let reader = open(archive(b"", &five())).unwrap();
    let entries = reader.directory_list();
    assert_eq!(entries.len(), 5);
    let ids: Vec<usize> = entries.iter().map(|entry| entry.id()).collect();
    assert_eq!(ids, vec![1, 2, 3, 4, 5]);
    let lens: Vec<usize> = entries.iter().map(|entry| entry.compressed_len()).collect();
    assert_eq!(lens, vec![5, 0, 13, 1, 14]);
    assert_eq!(entries[4].resource_type(), ResourceType::AppDefined0);
}

#[test]
fn empty_archive_opens() {
    let reader = open(archive(b"", &[])).unwrap();
    assert!(reader.directory_list().is_empty());
    assert!(!reader.contains(1));
    assert!(!reader.has_deleted_entries());
}

#[test]
fn directory_may_stand_before_the_data() {
    // header, directory header, one entry, then the data segment
    let mut bytes = file_header(b"", 128);
    bytes.extend_from_slice(&1u16.to_le_bytes());
    bytes.extend_from_slice(&144u32.to_le_bytes());
    bytes.extend_from_slice(&[9, 0, 3, 0, 0, 0, 3, 0, 0, 5]);
    bytes.extend_from_slice(b"xyz");
    let mut reader = open(bytes).unwrap();
    let resource = reader.get(9).unwrap();
    assert_eq!(resource.data(), b"xyz");
    assert_eq!(resource.resource_type(), ResourceType::Palette);
}

#[test]
fn comment_is_passed_through() {
    let reader = open(archive(b"shock levels", &[])).unwrap();
    assert_eq!(reader.comment().len(), 96);
    assert_eq!(&reader.comment()[..12], b"shock levels");
    assert!(reader.comment_str().unwrap().starts_with("shock levels\0"));
    let reader = open(archive(&[0xc3, 0x28], &[])).unwrap();
    assert_eq!(reader.comment_str().unwrap_err().kind(), ErrorKind::Utf8);
    assert_eq!(&reader.comment()[..2], &[0xc3, 0x28]);
}

#[test]
fn preload_entries_are_loaded_on_open() {
    let items = vec![
        item(1, 0x00, 1, b"lazy"),
        item(2, 0x08, 2, b"eager"),
        item(0, 0x08, 1, b"deleted"),
        item(3, 0x18, 3, b"eager too"),
    ];
    let reader = open(archive(b"", &items)).unwrap();
    assert!(reader.loaded(1).is_none());
    let second = reader.loaded(2).unwrap();
    assert_eq!(second.data(), b"eager");
    assert_eq!(second.resource_type(), ResourceType::Image);
    assert_eq!(second.flags().bits(), 0x08);
    let third = reader.loaded(3).unwrap();
    assert_eq!(third.data(), b"eager too");
    assert_eq!(third.flags().bits(), 0x18);
}

#[test]
fn preload_of_a_repeated_id_loads_the_first_entry() {
    let items = vec![item(6, 0x00, 1, b"first"), item(6, 0x08, 2, b"second")];
    let reader = open(archive(b"", &items)).unwrap();
    let resource = reader.loaded(6).unwrap();
    assert_eq!(resource.data(), b"first");
    assert_eq!(resource.resource_type(), ResourceType::String);
}

#[test]
fn failing_preload_fails_the_open() {
    let items = vec![item(1, 0x08, 1, b"fine"), item(2, 0x09, 1, b"packed")];
    assert_eq!(open(archive(b"", &items)).unwrap_err().kind(), ErrorKind::Unsupported);
    let mut short = item(3, 0x08, 1, b"abc");
    short.uncompressed_len = 100_000;
    assert_eq!(open(archive(b"", &[short])).unwrap_err().kind(), ErrorKind::IO);
}

#[test]
fn first_failing_preload_decides_the_error() {
    let mut short = item(1, 0x08, 1, b"abc");
    short.uncompressed_len = 100_000;
    let items = vec![short, item(2, 0x0a, 1, b"compound")];
    assert_eq!(open(archive(b"", &items)).unwrap_err().kind(), ErrorKind::IO);
    let mut short = item(1, 0x08, 1, b"abc");
    short.uncompressed_len = 100_000;
    let items = vec![item(2, 0x0a, 1, b"compound"), short];
    assert_eq!(open(archive(b"", &items)).unwrap_err().kind(), ErrorKind::Unsupported);
}

#[test]
fn load_then_get_gives_the_bytes_at_the_offset() {
    let bytes = archive(b"", &five());
    let mut reader = open(bytes.clone()).unwrap();
    reader.load(3).unwrap();
    let resource = reader.get(3).unwrap();
    assert_eq!(resource.data().len(), 13);
    assert_eq!(resource.data(), &bytes[133..146]);
    assert_eq!(resource.data(), b"the third one");
    let resource = reader.get(5).unwrap();
    assert_eq!(resource.data(), &bytes[147..161]);
}

#[test]
fn uncompressed_length_decides_how_much_is_read() {
    let mut long = item(1, 0, 1, b"abc");
    long.uncompressed_len = 5;
    let items = vec![long, item(2, 0, 1, b"defgh")];
    let mut reader = open(archive(b"", &items)).unwrap();
    assert_eq!(reader.get(1).unwrap().data(), b"abcde");
    // The next resource still begins behind the compressed length of the first.
    assert_eq!(reader.get(2).unwrap().data(), b"defgh");
}

#[test]
fn deleted_entries_still_take_space() {
    let items = vec![item(1, 0, 1, b"one"), item(0, 0, 1, b"gone"), item(2, 0, 1, b"two")];
    let mut reader = open(archive(b"", &items)).unwrap();
    assert!(reader.has_deleted_entries());
    assert_eq!(reader.get(2).unwrap().data(), b"two");
    assert_eq!(reader.get(1).unwrap().data(), b"one");
    let reader = open(archive(b"", &five())).unwrap();
    assert!(!reader.has_deleted_entries());
}

#[test]
fn empty_resource_loads_even_at_the_end_of_the_file() {
    // The data segment is said to begin far beyond the end of the file.
    let mut bytes = file_header(b"", 128);
    bytes.extend_from_slice(&1u16.to_le_bytes());
    bytes.extend_from_slice(&0xffff_0000u32.to_le_bytes());
    bytes.extend_from_slice(&[4, 0, 0, 0, 0, 0, 0, 0, 0, 1]);
    let mut reader = open(bytes).unwrap();
    assert_eq!(reader.get(4).unwrap().data(), b"");
}

#[test]
fn loading_twice_reads_once() {
    let mut reader = open(archive(b"", &five())).unwrap();
    // The directory of this archive ends the file.
    let end = reader.source().stream_position();
    assert_eq!(end, 128 + 33 + 6 + 50);
    reader.load(3).unwrap();
    assert_eq!(reader.source().stream_position(), 146);
    let first = reader.loaded(3).unwrap().data().to_vec();
    reader.load(5).unwrap();
    assert_eq!(reader.source().stream_position(), 161);
    // A second load neither seeks nor reads: the stream stays where it stood.
    reader.load(3).unwrap();
    assert_eq!(reader.source().stream_position(), 161);
    assert_eq!(reader.loaded(3).unwrap().data(), &first[..]);
    assert_eq!(reader.get(3).unwrap().data(), &first[..]);
    assert_eq!(reader.source().stream_position(), 161);
}

#[test]
fn loaded_does_not_load() {
    let reader = open(archive(b"", &five())).unwrap();
    let before = reader.source().stream_position();
    assert!(reader.loaded(1).is_none());
    assert!(reader.loaded(9999).is_none());
    assert!(reader.contains(1));
    assert_eq!(reader.source().stream_position(), before);
}

#[test]
fn bad_signature_is_refused() {
    let mut bytes = archive(b"", &five());
    bytes[13] = b'3';
    assert_eq!(open(bytes).unwrap_err().kind(), ErrorKind::BadSignature);
    let mut bytes = archive(b"", &five());
    bytes[..16].copy_from_slice(b"LG Res File v2\n\r");
    assert!(matches!(open(bytes), Err(Error::BadSignature)));
}

#[test]
fn bad_signature_is_found_before_the_directory_is_looked_for() {
    // The header points far beyond the end of the file; were the directory
    // looked for, the error would be an I/O error.
    let mut bytes = file_header(b"", 0x7fff_ffff);
    bytes[0] = b'X';
    assert_eq!(open(bytes).unwrap_err().kind(), ErrorKind::BadSignature);
}

#[test]
fn short_file_with_a_bad_signature_is_an_io_error() {
    assert_eq!(open(vec![0u8; 20]).unwrap_err().kind(), ErrorKind::IO);
    assert_eq!(open(Vec::new()).unwrap_err().kind(), ErrorKind::IO);
    assert_eq!(open(b"LG Res File v2\r\n".to_vec()).unwrap_err().kind(), ErrorKind::IO);
}

#[test]
fn truncated_directory_is_an_io_error_on_open() {
    let bytes = archive(b"", &five());
    let cut = bytes.len() - 1;
    assert_eq!(open(bytes[..cut].to_vec()).unwrap_err().kind(), ErrorKind::IO);
    // no directory header where the file header points
    assert_eq!(open(file_header(b"", 5000)).unwrap_err().kind(), ErrorKind::IO);
    assert_eq!(open(file_header(b"", 128)).unwrap_err().kind(), ErrorKind::IO);
}

#[test]
fn unknown_id_is_not_found() {
    let mut reader = open(archive(b"", &five())).unwrap();
    assert!(!reader.contains(9999));
    assert_eq!(reader.load(9999).unwrap_err().kind(), ErrorKind::ResourceNotFound);
    assert!(matches!(reader.get(9999), Err(Error::ResourceNotFound)));
    assert!(reader.loaded(9999).is_none());
    for id in 1..=5 {
        assert!(reader.contains(id));
        assert!(reader.load(id).is_ok());
    }
}

#[test]
fn unknown_id_reads_nothing() {
    let mut reader = open(archive(b"", &five())).unwrap();
    let before = reader.source().stream_position();
    assert_eq!(reader.load(9999).unwrap_err().kind(), ErrorKind::ResourceNotFound);
    assert_eq!(reader.source().stream_position(), before);
}

#[test]
fn compressed_resource_is_unsupported() {
    let items = vec![item(1, 0, 1, b"plain"), item(2, 0x01, 1, b"squeezed")];
    let mut reader = open(archive(b"", &items)).unwrap();
    assert_eq!(reader.load(2).unwrap_err().kind(), ErrorKind::Unsupported);
    assert!(matches!(reader.get(2), Err(Error::Unsupported)));
    assert!(reader.loaded(2).is_none());
    assert!(reader.contains(2));
    assert!(reader.get(1).is_ok());
}

#[test]
fn compound_resource_is_unsupported() {
    let items = vec![item(1, 0x02, 1, b"nested"), item(2, 0x03, 1, b"both")];
    let mut reader = open(archive(b"", &items)).unwrap();
    assert_eq!(reader.load(1).unwrap_err().kind(), ErrorKind::Unsupported);
    assert_eq!(reader.load(2).unwrap_err().kind(), ErrorKind::Unsupported);
}

#[test]
fn unsupported_resource_is_not_read() {
    let mut reader = open(archive(b"", &[item(2, 0x01, 1, b"squeezed")])).unwrap();
    let before = reader.source().stream_position();
    assert_eq!(reader.load(2).unwrap_err().kind(), ErrorKind::Unsupported);
    assert_eq!(reader.source().stream_position(), before);
}

#[test]
fn inert_flags_do_not_stop_a_load() {
    let items = vec![item(1, 0x04, 1, b"reserved"), item(2, 0x10, 1, b"spoofed")];
    let mut reader = open(archive(b"", &items)).unwrap();
    assert_eq!(reader.get(1).unwrap().flags().bits(), 0x04);
    assert_eq!(reader.get(2).unwrap().flags().bits(), 0x10);
}

#[test]
fn resource_past_the_end_is_an_io_error_and_is_not_cached() {
    let mut bytes = file_header(b"", 128);
    bytes.extend_from_slice(&1u16.to_le_bytes());
    bytes.extend_from_slice(&144u32.to_le_bytes());
    bytes.extend_from_slice(&[2, 0, 5, 0, 0, 0, 4, 0, 0, 1]);
    bytes.extend_from_slice(b"tail");
    let mut reader = open(bytes).unwrap();
    assert_eq!(reader.load(2).unwrap_err().kind(), ErrorKind::IO);
    assert!(reader.loaded(2).is_none());
    assert_eq!(reader.get(2).unwrap_err().kind(), ErrorKind::IO);
}

#[test]
fn find_resource_takes_the_first_match() {
    let mut reader = open(archive(b"", &five())).unwrap();
    let found = reader.find_resource(|entry: &DirectoryEntry| entry.uncompressed_len() > 5).unwrap();
    assert_eq!(found.data(), b"the third one");
    assert_eq!(found.resource_type(), ResourceType::Font);
    let found = reader.find_resource(|entry: &DirectoryEntry| entry.id() == 4).unwrap();
    assert_eq!(found.data(), b"4");
    // What was found this way is not kept.
    assert!(reader.loaded(3).is_none());
    assert!(reader.loaded(4).is_none());
}

#[test]
fn find_resource_without_a_match_is_not_found() {
    let mut reader = open(archive(b"", &five())).unwrap();
    let result = reader.find_resource(|entry: &DirectoryEntry| entry.id() == 77);
    assert_eq!(result.unwrap_err().kind(), ErrorKind::ResourceNotFound);
    let mut empty = open(archive(b"", &[])).unwrap();
    assert!(matches!(empty.find_resource(|_| true), Err(Error::ResourceNotFound)));
}

#[test]
fn find_resource_refuses_packed_resources() {
    let items = vec![item(1, 0x01, 1, b"lzw"), item(2, 0x02, 1, b"compound"), item(3, 0, 1, b"ok")];
    let mut reader = open(archive(b"", &items)).unwrap();
    assert_eq!(reader.find_resource(|_| true).unwrap_err().kind(), ErrorKind::Unsupported);
    let second = reader.find_resource(|entry: &DirectoryEntry| entry.id() == 2);
    assert_eq!(second.unwrap_err().kind(), ErrorKind::Unsupported);
    let third = reader.find_resource(|entry: &DirectoryEntry| !entry.is_deleted() && entry.id() > 2);
    assert_eq!(third.unwrap().data(), b"ok");
}

#[test]
fn find_resource_can_reach_deleted_entries() {
    let items = vec![item(1, 0, 1, b"one"), item(0, 0, 1, b"gone")];
    let mut reader = open(archive(b"", &items)).unwrap();
    let found = reader.find_resource(|entry: &DirectoryEntry| entry.is_deleted()).unwrap();
    assert_eq!(found.data(), b"gone");
}
