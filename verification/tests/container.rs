use std::io::Write;

use apostle_client::container::stored_file;
use apostle_client::digest::digest_of;

const OUT_OF_RANGE: &str = "container offsets exceed the range of this machine";
const CONFIG: &[u8] = br#"{"addresses":["172.237.134.238:1827"]}"#;

/// A container with two files in one chunk.
fn container() -> Vec<u8> {
    container_for(b"{}")
}

fn container_for(request: &[u8]) -> Vec<u8> {
    let dir = tempfile::tempdir().unwrap();
    let mut files = Vec::new();
    for (name, content) in [("config.json", CONFIG), ("other.txt", &b"other"[..])] {
        let mut file = tempfile::Builder::new()
            .prefix(name)
            .rand_bytes(0)
            .tempfile_in(dir.path())
            .unwrap();
        file.write_all(content).unwrap();
        file.flush().unwrap();
        files.push(file);
    }
    acai_core::build_container_from_directory(dir.path(), request).unwrap()
}

fn le32(bytes: &[u8], at: usize) -> usize {
    u32::from_le_bytes(bytes[at..at + 4].try_into().unwrap()) as usize
}

fn le64(bytes: &[u8], at: usize) -> usize {
    u64::from_le_bytes(bytes[at..at + 8].try_into().unwrap()) as usize
}

fn set64(bytes: &mut [u8], at: usize, value: u64) {
    bytes[at..at + 8].copy_from_slice(&value.to_le_bytes());
}

/// Where the index generation of a container is, and its end.
fn generation(container: &[u8]) -> (usize, usize) {
    let index = acai_core::BootstrapHeader::parse(container)
        .unwrap()
        .index_offset() as usize;
    let at = index + le32(container, index + 64 + 24);
    (at, at + le32(container, index + 64 + 28))
}

/// Where the entry of the only chunk is.
fn chunk_entry(container: &[u8]) -> usize {
    let (at, _) = generation(container);
    at + le32(container, at + 20)
}

/// Where the entry of a file is; the files stand in the order of their paths.
fn file_entry(container: &[u8], k: usize) -> usize {
    let (at, _) = generation(container);
    at + le32(container, at + 28) + 64 * k
}

/// Gives the index generation the hash that it has to have.
fn rehash(container: &mut [u8]) {
    let (at, end) = generation(container);
    container[at + 48..at + 80].fill(0);
    let hash = digest_of(&container[at..end]);
    container[at + 48..at + 80].copy_from_slice(&hash);
}

/// Puts the first file of a container out of range within its chunk.
fn misplace(container: &mut [u8]) {
    let entry = file_entry(container, 0);
    set64(container, entry + 8, u64::MAX);
    set64(container, entry + 16, 1);
    rehash(container);
}

/// What `acai_core` itself says about the first file.
fn reader_error(container: &[u8]) -> String {
    acai_core::reader::read_file(container, "config.json", None)
        .unwrap_err()
        .to_string()
}

fn error(container: &[u8]) -> String {
    stored_file(container, "config.json").unwrap_err()
}

#[test]
fn the_hash_is_blake3() {
    let hex = |bytes: [u8; 32]| -> String { bytes.iter().map(|b| format!("{b:02x}")).collect() };
    assert_eq!(
        hex(digest_of(b"")),
        "af1349b9f5f9a1a6a0404dea36dcc9499bcb25c9adc112b7cc9a93cae41f3262"
    );
    let entry = acai_core::HashEntry::new(acai_core::HashKind::Payload, "x", b"hello world");
    assert_eq!(hex(digest_of(b"hello world")), entry.hash);
}

#[test]
fn files_are_read_as_they_were_stored() {
    let bytes = container();
    assert_eq!(stored_file(&bytes, "config.json").unwrap(), CONFIG);
    assert_eq!(stored_file(&bytes, "other.txt").unwrap(), b"other");
}

#[test]
fn a_file_out_of_range_is_refused_and_the_others_are_not() {
    let mut bytes = container();
    misplace(&mut bytes);
    assert_eq!(error(&bytes), OUT_OF_RANGE);
    assert_eq!(stored_file(&bytes, "other.txt").unwrap(), b"other");
}

#[test]
fn a_chunk_too_large_for_memory_is_refused() {
    let mut bytes = container();
    let entry = chunk_entry(&bytes);
    set64(&mut bytes, entry + 16, u64::MAX);
    rehash(&mut bytes);
    assert_eq!(error(&bytes), OUT_OF_RANGE);
}

#[test]
fn a_chunk_place_out_of_range_is_refused() {
    let mut bytes = container();
    let entry = chunk_entry(&bytes);
    set64(&mut bytes, entry, u64::MAX);
    rehash(&mut bytes);
    assert_eq!(error(&bytes), OUT_OF_RANGE);
}

#[test]
fn a_damaged_chunk_is_the_readers_error_whatever_the_numbers() {
    let mut bytes = container();
    let chunk = le64(&bytes, chunk_entry(&bytes));
    bytes[chunk + 5] ^= 0xff;
    assert_eq!(error(&bytes), "chunk 0 hash mismatch");
    misplace(&mut bytes);
    assert_eq!(error(&bytes), "chunk 0 hash mismatch");
    assert_eq!(error(&bytes), reader_error(&bytes));
    let entry = chunk_entry(&bytes);
    set64(&mut bytes, entry + 16, u64::MAX);
    rehash(&mut bytes);
    assert_eq!(error(&bytes), "chunk 0 hash mismatch");
    assert_eq!(error(&bytes), reader_error(&bytes));
}

#[test]
fn a_chunk_of_another_length_is_the_readers_error_whatever_the_place_of_the_file() {
    let mut bytes = container();
    let entry = chunk_entry(&bytes);
    let plain_len = le64(&bytes, entry + 16) as u64;
    set64(&mut bytes, entry + 16, plain_len + 1);
    misplace(&mut bytes);
    assert_eq!(error(&bytes), "chunk decompressed length mismatch");
    assert_eq!(error(&bytes), reader_error(&bytes));
}

#[test]
fn a_chunk_that_cannot_be_unpacked_is_the_readers_error_whatever_the_place_of_the_file() {
    let mut bytes = container();
    let entry = chunk_entry(&bytes);
    let chunk = le64(&bytes, entry);
    let len = le64(&bytes, entry + 8);
    bytes[chunk..chunk + len].fill(0x55);
    let hash = digest_of(&bytes[chunk..chunk + len]);
    bytes[entry + 24..entry + 56].copy_from_slice(&hash);
    misplace(&mut bytes);
    assert!(error(&bytes).starts_with("IO error: "));
    assert_eq!(error(&bytes), reader_error(&bytes));
}

#[test]
fn a_file_that_is_not_what_its_hash_says_is_the_readers_error() {
    let mut bytes = container();
    let entry = file_entry(&bytes, 0);
    bytes[entry + 32] ^= 1;
    rehash(&mut bytes);
    assert_eq!(error(&bytes), "file hash mismatch");
    assert_eq!(error(&bytes), reader_error(&bytes));
}

#[test]
fn sizes_out_of_range_matter_only_where_counts_are_strict() {
    for (request, strict) in [
        (&b"{\"flags\":{\"strict_counts\":true}}"[..], true),
        (&b"{\"flags\":{\"strict_counts\":false}}"[..], false),
    ] {
        let mut bytes = container_for(request);
        for k in [0, 1] {
            let entry = file_entry(&bytes, k);
            set64(&mut bytes, entry + 24, u64::MAX);
        }
        rehash(&mut bytes);
        let read = stored_file(&bytes, "config.json");
        if strict {
            assert_eq!(read.unwrap_err(), OUT_OF_RANGE);
        } else {
            assert_eq!(read.unwrap(), CONFIG);
        }
    }
}
