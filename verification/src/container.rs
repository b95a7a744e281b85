//! Reading entries out of an `.acai` container.
//!
//! The reader of `acai_core` adds offsets and lengths that it finds in the
//! container before it holds them against the container's size. A sum that
//! leaves the machine's numbers ends in a panic there, so each sum that the
//! reader would come to is tried here first.
//!
//! The last of these sums comes only after the reader has unpacked a chunk, which
//! can fail. Whether it does is found out from the reader itself, on the same
//! container with a place for the file that cannot be out of range.

use vstd::prelude::*;
use vstd::slice::slice_subrange;

use crate::digest::{digest, digest_of, DIGEST_SIZE};

verus! {

/// The little-endian 32-bit number at `at`.
pub open spec fn le32(b: Seq<u8>, at: int) -> int {
    b[at] + 0x100 * b[at + 1] + 0x1_0000 * b[at + 2] + 0x100_0000 * b[at + 3]
}

/// The little-endian 64-bit number at `at`.
pub open spec fn le64(b: Seq<u8>, at: int) -> int {
    le32(b, at) + 0x1_0000_0000 * le32(b, at + 4)
}

/// Whether the bit of that value is set in a byte.
pub open spec fn has_bit(byte: u8, bit: int) -> bool {
    (byte as int / bit) % 2 == 1
}

/// The size of a container's header.
pub const HEADER_SIZE: usize = 176;

/// The size of the header of a container's State Section.
pub const STATE_HEADER_SIZE: usize = 72;

/// The size of each of the two heads of a container's index.
pub const INDEX_HEAD_SIZE: usize = 64;

/// The size of the header of an index generation.
pub const GENERATION_HEADER_SIZE: usize = 80;

/// More bytes than a record of a chunk or of a path takes in memory.
pub const RECORD_ROOM: u64 = 128;

/// The type of the TLV that says how many files, chunks and bytes a container
/// has. Every State Section has one.
pub const PROMISES_TLV: u16 = 0x0100;

/// The size of the value of the TLV of type [`PROMISES_TLV`].
pub const PROMISES_SIZE: usize = 28;

/// The size of an entry of the table of files.
pub const FILE_ENTRY_SIZE: usize = 64;

/// Where a chunk is in a container, how many bytes it holds when unpacked, and
/// the hash of its bytes in the container.
pub struct ChunkPlace {
    pub offset: u64,
    pub len: u64,
    pub plain_len: u64,
    pub hash: [u8; 32],
}

/// A file of a container: its path, its chunk, where it is in the unpacked chunk,
/// and its size.
pub struct FilePlace {
    pub path: String,
    pub chunk: u32,
    pub offset: u64,
    pub len: u64,
    pub size: u64,
}

/// The index of a container.
pub struct IndexEntries {
    pub chunks: Vec<ChunkPlace>,
    pub files: Vec<FilePlace>,
}

/// What a [`FilePlace`] says.
pub struct FilePlaceView {
    pub path: Seq<char>,
    pub chunk: u32,
    pub offset: u64,
    pub len: u64,
    pub size: u64,
}

/// What [`IndexEntries`] say.
pub struct IndexView {
    pub chunks: Seq<ChunkPlace>,
    pub files: Seq<FilePlaceView>,
}

impl View for FilePlace {
    type V = FilePlaceView;

    open spec fn view(&self) -> FilePlaceView {
        FilePlaceView {
            path: self.path@,
            chunk: self.chunk,
            offset: self.offset,
            len: self.len,
            size: self.size,
        }
    }
}

impl View for IndexEntries {
    type V = IndexView;

    open spec fn view(&self) -> IndexView {
        IndexView {
            chunks: self.chunks@,
            files: self.files@.map_values(|file: FilePlace| file@),
        }
    }
}

/// Whether `acai_core::BootstrapHeader::parse` accepts the header of a container.
pub uninterp spec fn has_header(container: Seq<u8>) -> bool;

/// Whether `acai_core::chunk_index::inspect_index_summary` reports a head of an
/// index as valid.
pub uninterp spec fn index_head_valid(head: Seq<u8>) -> bool;

/// What `acai_core::chunk_index::parse_chunk_index_data` gives for the index of a
/// container that is not encrypted, or nothing where it fails.
pub uninterp spec fn index_entries(index: Seq<u8>) -> Option<IndexView>;

/// What `acai_core::reader::read_file` gives for a container and the path of a
/// file in it, without a passphrase: the content of the file, or the text of
/// the error.
pub uninterp spec fn container_file(container: Seq<u8>, path: Seq<char>) -> Result<
    Seq<u8>,
    Seq<char>,
>;

/// What `acai_core::reader::read_state_tlv` gives for a container and the type of
/// a TLV: the value of the first TLV of that type in the container's State
/// Section, nothing where there is none, or the text of the error.
pub uninterp spec fn container_tlv(container: Seq<u8>, ty: u16) -> Result<
    Option<Seq<u8>>,
    Seq<char>,
>;

/// The place of a container's State Section.
pub open spec fn state_offset(c: Seq<u8>) -> int {
    le64(c, 0x18)
}

/// The end of a container's State Section.
pub open spec fn state_end(c: Seq<u8>) -> int {
    state_offset(c) + le64(c, 0x20)
}

/// The place of a container's index.
pub open spec fn index_offset(c: Seq<u8>) -> int {
    le64(c, 0x48)
}

/// The end of a container's index.
pub open spec fn index_end(c: Seq<u8>) -> int {
    index_offset(c) + le64(c, 0x50)
}

/// Whether the State Section lies within the container, its header included.
pub open spec fn has_state(c: Seq<u8>) -> bool {
    state_offset(c) + STATE_HEADER_SIZE <= state_end(c) <= c.len()
}

/// Whether the State Section of a container can be read without a sum leaving
/// the machine's numbers. Nothing is read behind a header that is not accepted.
pub open spec fn state_fits(c: Seq<u8>) -> bool {
    has_header(c) ==> {
        &&& state_end(c) <= usize::MAX
        &&& has_state(c) ==> le32(c, state_offset(c) + 0x20) + le32(c, state_offset(c) + 0x24)
            <= usize::MAX
    }
}

/// Whether a State Section says that the chunks are encrypted.
pub open spec fn is_encrypted(c: Seq<u8>) -> bool {
    has_bit(c[state_offset(c) + 0x10], 4)
}

/// Whether a State Section says that its promises are to be kept.
pub open spec fn is_strict(c: Seq<u8>) -> bool {
    has_bit(c[state_offset(c) + 0x10], 8)
}

/// Whether the reader takes notice of the head at `at` of an index.
pub open spec fn head_usable(index: Seq<u8>, at: int) -> bool {
    index_head_valid(index.subrange(at, at + INDEX_HEAD_SIZE)) && !has_bit(index[at + 20], 2)
}

/// The place of the head that the reader goes by: the one that it takes notice
/// of, that with the higher sequence number where there are two, and the first
/// of them where those are equal.
pub open spec fn active_head(index: Seq<u8>) -> Option<int> {
    let second = INDEX_HEAD_SIZE as int;
    if index.len() < 2 * INDEX_HEAD_SIZE {
        None
    } else if head_usable(index, 0) && !(head_usable(index, second) && le64(index, second + 12)
        > le64(index, 12)) {
        Some(0)
    } else if head_usable(index, second) {
        Some(second)
    } else {
        None
    }
}

/// Whether the index generation at `at` can be read without a sum leaving the
/// machine's numbers: the ends of its three tables, and the room that is set
/// aside for the records of two of them.
pub open spec fn generation_fits(index: Seq<u8>, at: int) -> bool {
    &&& le32(index, at + 20) + le32(index, at + 24) <= usize::MAX
    &&& le32(index, at + 28) + le32(index, at + 32) <= usize::MAX
    &&& le32(index, at + 36) + le32(index, at + 40) <= usize::MAX
    &&& le32(index, at + 12) * RECORD_ROOM <= isize::MAX
    &&& le32(index, at + 16) * RECORD_ROOM <= isize::MAX
}

/// Whether an index can be read without a sum leaving the machine's numbers.
pub open spec fn index_fits(index: Seq<u8>) -> bool {
    active_head(index) matches Some(head) ==> {
        let at = le32(index, head + 24);
        let len = le32(index, head + 28);
        &&& at + len <= u32::MAX
        &&& at + len <= index.len() && len >= GENERATION_HEADER_SIZE ==> generation_fits(index, at)
    }
}

/// The sizes of files, added up.
pub open spec fn total_size(files: Seq<FilePlaceView>) -> int
    decreases files.len(),
{
    if files.len() == 0 {
        0
    } else {
        total_size(files.drop_last()) + files.last().size
    }
}

/// Whether the value of the TLV of promises can be made out.
pub open spec fn are_promises(value: Seq<u8>) -> bool {
    value.len() == PROMISES_SIZE && value[0] == 1 && value[1] == 0
}

/// Whether the promises are kept by an index.
pub open spec fn keeps_promises(value: Seq<u8>, entries: IndexView) -> bool {
    &&& are_promises(value)
    &&& le64(value, 4) == entries.files.len()
    &&& le64(value, 12) == entries.chunks.len()
    &&& le64(value, 20) == total_size(entries.files)
}

/// Whether file `i` is the first with that path.
pub open spec fn is_first(files: Seq<FilePlaceView>, path: Seq<char>, i: int) -> bool {
    &&& 0 <= i < files.len()
    &&& files[i].path == path
    &&& forall|j: int| 0 <= j < i ==> (#[trigger] files[j]).path != path
}

/// Whether the chunk lies within the container and has the hash that it should
/// have.
pub open spec fn is_intact(c: Seq<u8>, chunk: ChunkPlace) -> bool {
    &&& chunk.offset + chunk.len <= c.len()
    &&& digest(c.subrange(chunk.offset as int, chunk.offset + chunk.len)) == chunk.hash@
}

/// Whether the file can be taken out of its chunk without a sum leaving the
/// machine's numbers. A chunk that is not intact is not unpacked.
pub open spec fn file_place_fits(c: Seq<u8>, entries: IndexView, file: FilePlaceView) -> bool {
    (file.chunk as int) < entries.chunks.len() ==> {
        let chunk = entries.chunks[file.chunk as int];
        &&& chunk.offset + chunk.len <= usize::MAX
        &&& is_intact(c, chunk) ==> {
            &&& chunk.plain_len <= isize::MAX
            &&& file.offset + file.len <= usize::MAX
        }
    }
}

/// Whether the file with that path can be read with those entries without a sum
/// leaving the machine's numbers. Sizes are added up only where promises are to
/// be kept, and no file is read where they are not.
pub open spec fn entries_fit(
    c: Seq<u8>,
    promises: Seq<u8>,
    entries: IndexView,
    path: Seq<char>,
) -> bool {
    &&& is_strict(c) && are_promises(promises) ==> total_size(entries.files) <= u64::MAX
    &&& !is_strict(c) || keeps_promises(promises, entries) ==> forall|i: int| #[trigger]
        is_first(entries.files, path, i) ==> file_place_fits(c, entries, entries.files[i])
}

/// Whether the file with that path can be read through the index of a container
/// without a sum leaving the machine's numbers.
pub open spec fn index_fits_for(c: Seq<u8>, promises: Seq<u8>, path: Seq<char>) -> bool {
    &&& index_end(c) <= usize::MAX
    &&& index_end(c) <= c.len() ==> {
        let index = c.subrange(index_offset(c), index_end(c));
        &&& index_fits(index)
        &&& index_entries(index) matches Some(entries) ==> entries_fit(c, promises, entries, path)
    }
}

/// Whether the file with that path can be read out of a container without a sum
/// leaving the machine's numbers. The index is not read where the State Section
/// cannot be, nor where the chunks are encrypted.
pub open spec fn file_fits(c: Seq<u8>, path: Seq<char>) -> bool {
    &&& state_fits(c)
    &&& has_header(c) && has_state(c) && !is_encrypted(c) ==> (container_tlv(
        c,
        PROMISES_TLV,
    ) matches Ok(Some(promises)) ==> index_fits_for(c, promises, path))
}

/// What is said about a container with sums that leave the machine's numbers.
pub open spec fn out_of_range() -> Seq<char> {
    "container offsets exceed the range of this machine"@
}

/// The bytes `b` in the place of those that stand in `s` at `at`.
pub open spec fn put(s: Seq<u8>, at: int, b: Seq<u8>) -> Seq<u8> {
    s.take(at) + b + s.skip(at + b.len())
}

/// Whether two stretches of bytes have no byte in common.
pub open spec fn are_apart(a: int, a_len: int, b: int, b_len: int) -> bool {
    a + a_len <= b || b + b_len <= a
}

/// The place of entry `k` of the table of files at `table`. Every entry but the
/// first begins at a multiple of eight.
pub open spec fn file_entry_at(table: int, k: int) -> int {
    if k == 0 {
        table
    } else {
        (table + 7) / 8 * 8 + FILE_ENTRY_SIZE * k
    }
}

/// Whether entry `k` of the table of files stands by itself in the index
/// generation at `at` of `len` bytes: apart from its header and from its tables
/// of chunks and of paths.
pub open spec fn stands_alone(index: Seq<u8>, at: int, len: int, k: int) -> bool {
    let entry = file_entry_at(le32(index, at + 28), k);
    &&& GENERATION_HEADER_SIZE <= entry
    &&& entry + FILE_ENTRY_SIZE <= len
    &&& are_apart(
        entry,
        FILE_ENTRY_SIZE as int,
        le32(index, at + 20),
        le32(index, at + 24),
    )
    &&& are_apart(
        entry,
        FILE_ENTRY_SIZE as int,
        le32(index, at + 36),
        le32(index, at + 40),
    )
}

/// The index with nothing as the place of file `k` in its chunk, and with the
/// hash that the generation at `at` of `len` bytes then has.
pub open spec fn with_file_emptied(index: Seq<u8>, at: int, len: int, k: int) -> Seq<u8> {
    let entry = at + file_entry_at(le32(index, at + 28), k);
    let emptied = put(index, entry + 8, Seq::new(16, |i: int| 0u8));
    let unhashed = put(emptied, at + 48, Seq::new(DIGEST_SIZE as nat, |i: int| 0u8));
    put(unhashed, at + 48, digest(unhashed.subrange(at, at + len)))
}

/// Whether the index stands by itself in a container, with the index generation
/// at `at` behind its heads: apart from the header, from the State Section and
/// from the chunk of the file.
pub open spec fn index_stands_alone(
    c: Seq<u8>,
    at: int,
    entries: IndexView,
    file: FilePlaceView,
) -> bool {
    let from = index_offset(c);
    let len = index_end(c) - from;
    let chunk = entries.chunks[file.chunk as int];
    &&& (file.chunk as int) < entries.chunks.len()
    &&& 2 * INDEX_HEAD_SIZE <= at
    &&& HEADER_SIZE <= from
    &&& are_apart(from, len, state_offset(c), state_end(c) - state_offset(c))
    &&& are_apart(from, len, chunk.offset as int, chunk.len as int)
}

/// The container whose index has nothing as the place of the file with that path
/// in its chunk, if the index can be read, lists that file, and can be changed in
/// this without anything else being changed.
pub open spec fn emptied(c: Seq<u8>, path: Seq<char>) -> Option<Seq<u8>> {
    let index = c.subrange(index_offset(c), index_end(c));
    let head = active_head(index)->Some_0;
    let at = le32(index, head + 24);
    let len = le32(index, head + 28);
    let entries = index_entries(index)->Some_0;
    let k = choose|k: int| is_first(entries.files, path, k);
    if has_header(c) && index_end(c) <= c.len() && active_head(index) is Some && index_fits(index)
        && GENERATION_HEADER_SIZE <= len && at + len <= index.len() && index_entries(
        index,
    ) is Some && is_first(entries.files, path, k) && stands_alone(index, at, len, k)
        && index_stands_alone(c, at, entries, entries.files[k]) {
        Some(put(c, index_offset(c), with_file_emptied(index, at, len, k)))
    } else {
        None
    }
}

/// What the reader says about a file that is not what its hash says.
pub open spec fn file_hash_mismatch() -> Seq<char> {
    "file hash mismatch"@
}

/// What the reader comes to on a file whose place in its chunk is out of range.
///
/// Up to where it takes the file out of the unpacked chunk it does the same with
/// nothing as that place, so an error until then is its error here too. Nothing
/// can be taken out of any chunk, and only then is it held against the hash of
/// the file. Where the reader gets as far as that, it would have come to the sum
/// that is out of range. A sum before that one is out of range in both.
pub open spec fn unpacking_error(c: Seq<u8>, path: Seq<char>) -> Seq<char> {
    match emptied(c, path) {
        Some(other) => if file_fits(other, path) {
            match container_file(other, path) {
                Err(text) => if text == file_hash_mismatch() {
                    out_of_range()
                } else {
                    text
                },
                Ok(_) => out_of_range(),
            }
        } else {
            out_of_range()
        },
        None => out_of_range(),
    }
}

/// What there is to read of a file of a container: what the reader gives, unless
/// it would come to a sum that leaves the machine's numbers.
pub open spec fn file_entry(c: Seq<u8>, path: Seq<char>) -> Result<Seq<u8>, Seq<char>> {
    if file_fits(c, path) {
        container_file(c, path)
    } else {
        Err(unpacking_error(c, path))
    }
}

/// What there is to read of a TLV of a container: what the reader gives, unless
/// it would come to a sum that leaves the machine's numbers.
pub open spec fn tlv_entry(c: Seq<u8>, ty: u16) -> Result<Option<Seq<u8>>, Seq<char>> {
    if state_fits(c) {
        container_tlv(c, ty)
    } else {
        Err(out_of_range())
    }
}

/// What was read of a file of a container.
pub open spec fn file_view(file: Result<Vec<u8>, String>) -> Result<Seq<u8>, Seq<char>> {
    match file {
        Ok(content) => Ok(content@),
        Err(text) => Err(text@),
    }
}

/// What was read of a TLV of a container.
pub open spec fn tlv_view(tlv: Result<Option<Vec<u8>>, String>) -> Result<
    Option<Seq<u8>>,
    Seq<char>,
> {
    match tlv {
        Ok(None) => Ok(None),
        Ok(Some(value)) => Ok(Some(value@)),
        Err(text) => Err(text@),
    }
}

/// `acai_core::BootstrapHeader::parse`, as far as whether it succeeds.
///
/// That depends on the first bytes alone, which have a magic, a version and a
/// checksum; it is given the name [`has_header`]. It fails where there are fewer
/// bytes than a header has.
#[verifier::external_body]
fn parse_header(container: &[u8]) -> (r: bool)
    ensures
        r == has_header(container@),
        r ==> container@.len() >= HEADER_SIZE,
{
    acai_core::BootstrapHeader::parse(container).is_ok()
}

/// `acai_core::chunk_index::inspect_index_summary` on one head of an index, as
/// far as whether it reports the head as valid.
///
/// That depends on the bytes of the head alone, which have a magic, a version and
/// a hash; it is given the name [`index_head_valid`]. With a single head there is
/// no index behind it to look at.
#[verifier::external_body]
fn inspect_index_head(head: &[u8]) -> (r: bool)
    requires
        head@.len() == INDEX_HEAD_SIZE,
    ensures
        r == index_head_valid(head@),
{
    match acai_core::chunk_index::inspect_index_summary(head, false) {
        Ok(summary) => summary.superheaders[0].valid,
        Err(_) => false,
    }
}

/// `acai_core::chunk_index::parse_chunk_index_data`, for chunks that are not
/// encrypted.
///
/// The result depends on the bytes of the index alone; it is given the name
/// [`index_entries`]. Of each file the hash is left out. The call needs the memory
/// that the index says its records take.
#[verifier::external_body]
fn parse_index(index: &[u8]) -> (r: Option<IndexEntries>)
    requires
        index_fits(index@),
    ensures
        match r {
            Some(entries) => index_entries(index@) == Some(entries@),
            None => index_entries(index@) is None,
        },
{
    let data = acai_core::chunk_index::parse_chunk_index_data(index, false).ok()?;
    let chunks = data.chunks.into_iter().map(
        |c| ChunkPlace {
            offset: c.chunk_offset, len: c.chunk_len, plain_len: c.plain_len, hash: c.hash,
        },
    ).collect();
    let files = data.files.into_iter().map(
        |f| FilePlace {
            path: f.path, chunk: f.chunk_id, offset: f.inner_offset, len: f.inner_len,
            size: f.file_size,
        },
    ).collect();
    Some(IndexEntries { chunks, files })
}

/// `acai_core::reader::read_file`, without a passphrase.
///
/// The result depends on the container's bytes and on the path alone; it is
/// given the name [`container_file`]. The call needs the memory that the
/// container says its chunks and its index take.
#[verifier::external_body]
fn read_file(container: &[u8], path: &str) -> (r: Result<Vec<u8>, String>)
    requires
        file_fits(container@, path@),
    ensures
        file_view(r) == container_file(container@, path@),
{
    match acai_core::reader::read_file(container, path, None) {
        Ok(content) => Ok(content),
        Err(err) => Err(err.to_string()),
    }
}

/// `acai_core::reader::read_state_tlv`.
///
/// The result depends on the container's bytes and on the type alone; it is
/// given the name [`container_tlv`].
#[verifier::external_body]
fn read_state_tlv(container: &[u8], ty: u16) -> (r: Result<Option<Vec<u8>>, String>)
    requires
        state_fits(container@),
    ensures
        tlv_view(r) == container_tlv(container@, ty),
{
    match acai_core::reader::read_state_tlv(container, ty) {
        Ok(value) => Ok(value),
        Err(err) => Err(err.to_string()),
    }
}

fn le32_at(b: &[u8], at: usize) -> (r: u64)
    requires
        at + 4 <= b@.len(),
    ensures
        r == le32(b@, at as int),
        r <= u32::MAX,
{
    b[at] as u64 + 0x100 * (b[at + 1] as u64) + 0x1_0000 * (b[at + 2] as u64) + 0x100_0000 * (b[at
        + 3] as u64)
}

fn le64_at(b: &[u8], at: usize) -> (r: u64)
    requires
        at + 8 <= b@.len(),
    ensures
        r == le64(b@, at as int),
{
    let n: usize = b.len();
    assert(at + 8 <= n);
    le32_at(b, at) + 0x1_0000_0000 * le32_at(b, at + 4)
}

/// The end of what begins at `at` and takes `len` bytes, if the machine can count
/// to it.
fn end_of(at: u64, len: u64) -> (r: Option<usize>)
    ensures
        match r {
            Some(end) => end == at + len,
            None => at + len > usize::MAX,
        },
{
    match at.checked_add(len) {
        Some(end) => {
            if end <= usize::MAX as u64 {
                Some(end as usize)
            } else {
                None
            }
        },
        None => None,
    }
}

/// Whether the State Section of a container with a header can be read, as
/// [`state_fits`] states it.
fn state_ok(c: &[u8]) -> (r: bool)
    requires
        c@.len() >= HEADER_SIZE,
        has_header(c@),
    ensures
        r == state_fits(c@),
{
    let n: usize = c.len();
    let at: u64 = le64_at(c, 0x18);
    let len: u64 = le64_at(c, 0x20);
    match end_of(at, len) {
        None => false,
        Some(end) => {
            if end > n || len < STATE_HEADER_SIZE as u64 {
                return true;
            }
            let at: usize = at as usize;
            end_of(le32_at(c, at + 0x20), le32_at(c, at + 0x24)).is_some()
        },
    }
}

/// Whether the reader takes notice of the head at `at`, as [`head_usable`] states
/// it.
fn head_is_usable(index: &[u8], at: usize) -> (r: bool)
    requires
        at + INDEX_HEAD_SIZE <= index@.len(),
    ensures
        r == head_usable(index@, at as int),
{
    let n: usize = index.len();
    inspect_index_head(slice_subrange(index, at, at + INDEX_HEAD_SIZE)) && (index[at + 20] / 2) % 2
        == 0
}

/// The head that the reader goes by, as [`active_head`] states it.
fn find_head(index: &[u8]) -> (r: Option<usize>)
    ensures
        match r {
            Some(head) => active_head(index@) == Some(head as int) && head + INDEX_HEAD_SIZE
                <= index@.len(),
            None => active_head(index@) is None,
        },
{
    if index.len() < 2 * INDEX_HEAD_SIZE {
        return None;
    }
    let first: bool = head_is_usable(index, 0);
    let second: bool = head_is_usable(index, INDEX_HEAD_SIZE);
    if first && !(second && le64_at(index, INDEX_HEAD_SIZE + 12) > le64_at(index, 12)) {
        Some(0)
    } else if second {
        Some(INDEX_HEAD_SIZE)
    } else {
        None
    }
}

/// Whether an index can be read, as [`index_fits`] states it.
fn index_ok(index: &[u8]) -> (r: bool)
    ensures
        r == index_fits(index@),
{
    let n: usize = index.len();
    let head: usize = match find_head(index) {
        Some(head) => head,
        None => {
            return true;
        },
    };
    let off: u64 = le32_at(index, head + 24);
    let len: u64 = le32_at(index, head + 28);
    if off + len > u32::MAX as u64 {
        return false;
    }
    if off + len > n as u64 || len < GENERATION_HEADER_SIZE as u64 {
        return true;
    }
    let at: usize = off as usize;
    let chunks: bool = end_of(le32_at(index, at + 20), le32_at(index, at + 24)).is_some();
    let files: bool = end_of(le32_at(index, at + 28), le32_at(index, at + 32)).is_some();
    let paths: bool = end_of(le32_at(index, at + 36), le32_at(index, at + 40)).is_some();
    let room: u64 = isize::MAX as u64;
    chunks && files && paths && le32_at(index, at + 12) * RECORD_ROOM <= room && le32_at(
        index,
        at + 16,
    ) * RECORD_ROOM <= room
}

/// The sizes of the files, added up, if they can be.
fn add_sizes(files: &Vec<FilePlace>) -> (r: Option<u64>)
    ensures
        ({
            let total = total_size(files@.map_values(|file: FilePlace| file@));
            match r {
                Some(sum) => sum == total,
                None => total > u64::MAX,
            }
        }),
{
    let ghost views = files@.map_values(|file: FilePlace| file@);
    let mut sum: u64 = 0;
    let mut i: usize = 0;
    assert(views.take(0) =~= Seq::<FilePlaceView>::empty());
    while i < files.len()
        invariant
            i <= files@.len(),
            views == files@.map_values(|file: FilePlace| file@),
            sum == total_size(views.take(i as int)),
        decreases files@.len() - i,
    {
        assert(views.take(i + 1).drop_last() =~= views.take(i as int));
        assert(views.take(i + 1).last() == files@[i as int]@);
        match sum.checked_add(files[i].size) {
            Some(more) => {
                sum = more;
            },
            None => {
                proof {
                    lemma_sizes_grow(views, i + 1);
                }
                return None;
            },
        }
        i = i + 1;
    }
    assert(views.take(i as int) =~= views);
    Some(sum)
}

proof fn lemma_sizes_grow(files: Seq<FilePlaceView>, k: int)
    requires
        0 <= k <= files.len(),
    ensures
        total_size(files.take(k)) <= total_size(files),
    decreases files.len(),
{
    if k == files.len() {
        assert(files.take(k) =~= files);
    } else {
        lemma_sizes_grow(files.drop_last(), k);
        assert(files.drop_last().take(k) =~= files.take(k));
    }
}

/// The first file with that path, if there is one.
fn find_file(files: &Vec<FilePlace>, path: &str) -> (r: Option<usize>)
    ensures
        ({
            let views = files@.map_values(|file: FilePlace| file@);
            match r {
                Some(i) => is_first(views, path@, i as int),
                None => forall|i: int| !is_first(views, path@, i),
            }
        }),
{
    let ghost views = files@.map_values(|file: FilePlace| file@);
    let name: String = path.to_owned();
    let mut i: usize = 0;
    while i < files.len() && files[i].path != name
        invariant
            i <= files@.len(),
            views == files@.map_values(|file: FilePlace| file@),
            name@ == path@,
            forall|j: int| 0 <= j < i ==> (#[trigger] views[j]).path != path@,
        decreases files@.len() - i,
    {
        i = i + 1;
    }
    if i < files.len() {
        Some(i)
    } else {
        None
    }
}

fn same_bytes(a: &[u8], b: &[u8]) -> (r: bool)
    ensures
        r == (a@ == b@),
{
    if a.len() != b.len() {
        return false;
    }
    let n: usize = a.len();
    let mut i: usize = 0;
    while i < n && a[i] == b[i]
        invariant
            i <= n,
            n == a@.len(),
            n == b@.len(),
            forall|j: int| 0 <= j < i ==> a@[j] == b@[j],
        decreases n - i,
    {
        i = i + 1;
    }
    proof {
        if i == n {
            assert(a@ =~= b@);
        }
    }
    i == n
}

/// Whether the file can be taken out of its chunk, as [`file_place_fits`] states
/// it.
fn file_place_ok(c: &[u8], entries: &IndexEntries, file: &FilePlace) -> (r: bool)
    ensures
        r == file_place_fits(c@, entries@, file@),
{
    if file.chunk as u64 >= entries.chunks.len() as u64 {
        return true;
    }
    let n: usize = c.len();
    let chunk: &ChunkPlace = &entries.chunks[file.chunk as usize];
    let end: usize = match end_of(chunk.offset, chunk.len) {
        Some(end) => end,
        None => {
            return false;
        },
    };
    if chunk.plain_len <= isize::MAX as u64 && end_of(file.offset, file.len).is_some() {
        return true;
    }
    if end > n {
        return true;
    }
    let found: [u8; 32] = digest_of(slice_subrange(c, chunk.offset as usize, end));
    !same_bytes(&found, &chunk.hash)
}

/// Whether the file can be read with those entries, as [`entries_fit`] states it.
fn entries_ok(c: &[u8], promises: &Vec<u8>, entries: &IndexEntries, path: &str) -> (r: bool)
    requires
        has_state(c@),
        state_end(c@) <= usize::MAX,
        c@.len() >= HEADER_SIZE,
    ensures
        r == entries_fit(c@, promises@, entries@, path@),
{
    let n: usize = c.len();
    let at: usize = le64_at(c, 0x18) as usize;
    if (c[at + 0x10] / 8) % 2 == 1 {
        if promises.len() != PROMISES_SIZE || promises[0] != 1 || promises[1] != 0 {
            return true;
        }
        let total: u64 = match add_sizes(&entries.files) {
            Some(total) => total,
            None => {
                return false;
            },
        };
        let value: &[u8] = promises.as_slice();
        if le64_at(value, 4) != entries.files.len() as u64 || le64_at(value, 12)
            != entries.chunks.len() as u64 || le64_at(value, 20) != total {
            return true;
        }
    }
    match find_file(&entries.files, path) {
        None => true,
        Some(i) => {
            let r: bool = file_place_ok(c, entries, &entries.files[i]);
            proof {
                assert(is_first(entries@.files, path@, i as int));
                lemma_first_is_unique(entries@.files, path@, i as int);
            }
            r
        },
    }
}

/// Whether the file with that path can be read, as [`file_fits`] states it.
fn file_ok(c: &[u8], path: &str) -> (r: bool)
    ensures
        r == file_fits(c@, path@),
{
    if !parse_header(c) {
        return true;
    }
    if !state_ok(c) {
        return false;
    }
    let n: usize = c.len();
    let state_at: u64 = le64_at(c, 0x18);
    let state_len: u64 = le64_at(c, 0x20);
    if state_len < STATE_HEADER_SIZE as u64 || state_at + state_len > n as u64 {
        return true;
    }
    if (c[state_at as usize + 0x10] / 4) % 2 == 1 {
        return true;
    }
    let promises: Vec<u8> = match read_state_tlv(c, PROMISES_TLV) {
        Ok(Some(value)) => value,
        _ => {
            return true;
        },
    };
    let from: u64 = le64_at(c, 0x48);
    let to: usize = match end_of(from, le64_at(c, 0x50)) {
        Some(end) => end,
        None => {
            return false;
        },
    };
    if to > n {
        return true;
    }
    let index: &[u8] = slice_subrange(c, from as usize, to);
    if !index_ok(index) {
        return false;
    }
    match parse_index(index) {
        None => true,
        Some(entries) => entries_ok(c, &promises, &entries, path),
    }
}

fn copied(b: &[u8]) -> (r: Vec<u8>)
    ensures
        r@ == b@,
{
    let mut r: Vec<u8> = Vec::new();
    let mut i: usize = 0;
    while i < b.len()
        invariant
            i <= b@.len(),
            r@ == b@.take(i as int),
        decreases b@.len() - i,
    {
        r.push(b[i]);
        i = i + 1;
        assert(r@ =~= b@.take(i as int));
    }
    assert(b@.take(i as int) =~= b@);
    r
}

/// Puts the bytes `b` in the place of those in `v` at `at`, as [`put`] states it.
fn put_bytes(v: &mut Vec<u8>, at: usize, b: &[u8])
    requires
        at + b@.len() <= old(v)@.len(),
    ensures
        final(v)@ == put(old(v)@, at as int, b@),
{
    let ghost before = v@;
    let size: usize = v.len();
    let n: usize = b.len();
    let mut i: usize = 0;
    while i < n
        invariant
            i <= n,
            n == b@.len(),
            size == before.len(),
            v@.len() == before.len(),
            at + n <= before.len(),
            forall|j: int| 0 <= j < i ==> v@[at + j] == #[trigger] b@[j],
            forall|j: int| 0 <= j < at ==> v@[j] == before[j],
            forall|j: int| at + i <= j < before.len() ==> v@[j] == before[j],
        decreases n - i,
    {
        let place: usize = at + i;
        v.set(place, b[i]);
        i = i + 1;
    }
    assert(v@ =~= put(before, at as int, b@)) by {
        assert forall|j: int| 0 <= j < v@.len() implies v@[j] == put(before, at as int, b@)[j] by {
            if at <= j < at + n {
                assert(v@[at + (j - at)] == b@[j - at]);
            }
        }
    }
}

/// Whether the entry stands by itself, as [`stands_alone`] states it, and its
/// place in the generation.
fn lone_entry(index: &[u8], at: usize, len: usize, k: usize) -> (r: Option<usize>)
    requires
        GENERATION_HEADER_SIZE <= len <= u32::MAX,
        at + len <= index@.len(),
    ensures
        match r {
            Some(entry) => stands_alone(index@, at as int, len as int, k as int) && entry
                == file_entry_at(le32(index@, at + 28), k as int),
            None => !stands_alone(index@, at as int, len as int, k as int),
        },
{
    let n: usize = index.len();
    if k > len / FILE_ENTRY_SIZE {
        return None;
    }
    let size: u64 = FILE_ENTRY_SIZE as u64;
    let table: u64 = le32_at(index, at + 28);
    let entry: u64 = if k == 0 {
        table
    } else {
        (table + 7) / 8 * 8 + size * (k as u64)
    };
    let chunks: u64 = le32_at(index, at + 20);
    let chunks_end: u64 = chunks + le32_at(index, at + 24);
    let paths: u64 = le32_at(index, at + 36);
    let paths_end: u64 = paths + le32_at(index, at + 40);
    if GENERATION_HEADER_SIZE as u64 <= entry && entry + size <= len as u64 && (entry + size
        <= chunks || chunks_end <= entry) && (entry + size <= paths || paths_end <= entry) {
        Some(entry as usize)
    } else {
        None
    }
}

/// Whether the index stands by itself, as [`index_stands_alone`] states it.
fn is_lone_index(c: &[u8], at: usize, entries: &IndexEntries, file: &FilePlace) -> (r: bool)
    requires
        c@.len() >= HEADER_SIZE,
        index_end(c@) <= c@.len(),
    ensures
        r == index_stands_alone(c@, at as int, entries@, file@),
{
    let n: usize = c.len();
    if file.chunk as u64 >= entries.chunks.len() as u64 {
        return false;
    }
    let chunk: &ChunkPlace = &entries.chunks[file.chunk as usize];
    let from: u64 = le64_at(c, 0x48);
    let to: u64 = from + le64_at(c, 0x50);
    let state: u64 = le64_at(c, 0x18);
    let behind_state: bool = match state.checked_add(le64_at(c, 0x20)) {
        Some(end) => end <= from,
        None => false,
    };
    let behind_chunk: bool = match chunk.offset.checked_add(chunk.len) {
        Some(end) => end <= from,
        None => false,
    };
    2 * INDEX_HEAD_SIZE <= at && HEADER_SIZE as u64 <= from && (to <= state || behind_state) && (to
        <= chunk.offset || behind_chunk)
}

/// The container with an empty file, as [`emptied`] states it.
fn empty_file(c: &[u8], path: &str) -> (r: Option<Vec<u8>>)
    ensures
        match r {
            Some(other) => emptied(c@, path@) == Some(other@),
            None => emptied(c@, path@) is None,
        },
{
    if !parse_header(c) {
        return None;
    }
    let n: usize = c.len();
    let from: u64 = le64_at(c, 0x48);
    let to: usize = match end_of(from, le64_at(c, 0x50)) {
        Some(end) => end,
        None => {
            return None;
        },
    };
    if to > n {
        return None;
    }
    let index: &[u8] = slice_subrange(c, from as usize, to);
    let size: usize = index.len();
    let head: usize = match find_head(index) {
        Some(head) => head,
        None => {
            return None;
        },
    };
    let off: u64 = le32_at(index, head + 24);
    let len: u64 = le32_at(index, head + 28);
    if len < GENERATION_HEADER_SIZE as u64 || off + len > size as u64 || !index_ok(index) {
        return None;
    }
    let entries: IndexEntries = match parse_index(index) {
        Some(entries) => entries,
        None => {
            return None;
        },
    };
    let k: usize = match find_file(&entries.files, path) {
        Some(k) => k,
        None => {
            return None;
        },
    };
    proof {
        lemma_first_is_unique(entries@.files, path@, k as int);
    }
    let at: usize = off as usize;
    let entry: usize = match lone_entry(index, at, len as usize, k) {
        Some(entry) => entry,
        None => {
            return None;
        },
    };
    if !is_lone_index(c, at, &entries, &entries.files[k]) {
        return None;
    }
    let mut changed: Vec<u8> = copied(index);
    let nothing: [u8; 16] = [0u8; 16];
    assert(nothing@ =~= Seq::new(16, |i: int| 0u8));
    put_bytes(&mut changed, at + entry + 8, &nothing);
    let unhashed: [u8; 32] = [0u8; 32];
    assert(unhashed@ =~= Seq::new(DIGEST_SIZE as nat, |i: int| 0u8));
    put_bytes(&mut changed, at + 48, &unhashed);
    let hash: [u8; 32] = digest_of(
        slice_subrange(changed.as_slice(), at, at + len as usize),
    );
    put_bytes(&mut changed, at + 48, &hash);
    let mut other: Vec<u8> = copied(c);
    put_bytes(&mut other, from as usize, changed.as_slice());
    Some(other)
}

proof fn lemma_first_is_unique(files: Seq<FilePlaceView>, path: Seq<char>, k: int)
    requires
        is_first(files, path, k),
    ensures
        forall|j: int| #[trigger] is_first(files, path, j) ==> j == k,
{
    assert forall|j: int| #[trigger] is_first(files, path, j) implies j == k by {
        if j < k {
            assert(files[j].path != path);
        } else if k < j {
            assert(files[k].path != path);
        }
    }
}

/// The content of a file of a container, or the text of the error.
pub fn stored_file(container: &[u8], path: &str) -> (r: Result<Vec<u8>, String>)
    ensures
        file_view(r) == file_entry(container@, path@),
{
    if file_ok(container, path) {
        return read_file(container, path);
    }
    if let Some(other) = empty_file(container, path) {
        if file_ok(other.as_slice(), path) {
            if let Err(text) = read_file(other.as_slice(), path) {
                if text != "file hash mismatch".to_owned() {
                    return Err(text);
                }
            }
        }
    }
    Err("container offsets exceed the range of this machine".to_owned())
}

/// The value of the first TLV of that type in a container's State Section,
/// nothing where there is none, or the text of the error.
pub fn stored_tlv(container: &[u8], ty: u16) -> (r: Result<Option<Vec<u8>>, String>)
    ensures
        tlv_view(r) == tlv_entry(container@, ty),
{
    if !parse_header(container) || state_ok(container) {
        read_state_tlv(container, ty)
    } else {
        Err("container offsets exceed the range of this machine".to_owned())
    }
}

/// Numbers in a container stand with their smallest byte first.
pub proof fn law_numbers_are_little_endian(b: Seq<u8>, at: int)
    ensures
        le32(b, at) == b[at] + 256 * b[at + 1] + 65536 * b[at + 2] + 16777216 * b[at + 3],
        le64(b, at) == b[at] + 256 * b[at + 1] + 65536 * b[at + 2] + 16777216 * b[at + 3]
            + 4294967296 * (b[at + 4] + 256 * b[at + 5] + 65536 * b[at + 6] + 16777216 * b[at + 7]),
{
}

/// What is read is handed on as it is: the whole content of a file or the whole
/// value of a TLV, and the whole text of an error.
pub proof fn law_what_was_read_is_handed_on(content: Vec<u8>, text: String)
    ensures
        file_view(Ok(content)) == Ok::<Seq<u8>, Seq<char>>(content@),
        file_view(Err(text)) == Err::<Seq<u8>, Seq<char>>(text@),
        tlv_view(Ok(None)) == Ok::<Option<Seq<u8>>, Seq<char>>(None),
        tlv_view(Ok(Some(content))) == Ok::<Option<Seq<u8>>, Seq<char>>(Some(content@)),
        tlv_view(Err(text)) == Err::<Option<Seq<u8>>, Seq<char>>(text@),
{
}

/// Where no sum leaves the machine's numbers, what there is to read is exactly what
/// the reader gives: the content of a file or the value of a TLV, to the last
/// byte, or its error. Where one does, there is nothing to read but an error.
pub proof fn law_what_fits_is_read_as_the_reader_reads_it(
    c: Seq<u8>,
    path: Seq<char>,
    ty: u16,
)
    ensures
        file_fits(c, path) ==> file_entry(c, path) == container_file(c, path),
        !file_fits(c, path) ==> file_entry(c, path) is Err,
        !file_fits(c, path) ==> file_entry(c, path)->Err_0
            == "container offsets exceed the range of this machine"@ || exists|other: Seq<u8>|
            #[trigger] container_file(other, path) == Err::<Seq<u8>, Seq<char>>(
                file_entry(c, path)->Err_0,
            ),
        state_fits(c) ==> tlv_entry(c, ty) == container_tlv(c, ty),
        !state_fits(c) ==> tlv_entry(c, ty) == Err::<Option<Seq<u8>>, Seq<char>>(
            "container offsets exceed the range of this machine"@,
        ),
{
    if !file_fits(c, path) && file_entry(c, path)->Err_0
        != "container offsets exceed the range of this machine"@ {
        let other = emptied(c, path)->Some_0;
        assert(container_file(other, path) == Err::<Seq<u8>, Seq<char>>(
            file_entry(c, path)->Err_0,
        ));
    }
}

/// A container is refused only for numbers that are out of range. On a machine of
/// 64 bits, where the ends of the State Section, of the index, of the generations
/// that its heads point to, of every chunk and of every file within its chunk can
/// all be counted, where no chunk unpacks to more than a slice can hold, and where
/// the files could all be as large as `most` and still be counted together, every
/// file and every TLV is read just as the reader reads it.
pub proof fn law_containers_with_numbers_in_range_are_read(
    c: Seq<u8>,
    path: Seq<char>,
    ty: u16,
    most: nat,
)
    ensures
        ({
            let from = le64(c, 0x48);
            let to = le64(c, 0x48) + le64(c, 0x50);
            let index = c.subrange(from, to);
            &&& usize::MAX == u64::MAX
            &&& isize::MAX >= 0x7fff_ffff_ffff
            &&& le64(c, 0x18) + le64(c, 0x20) <= u64::MAX
            &&& to <= u64::MAX
            &&& to <= c.len() ==> le32(index, 24) + le32(index, 28) <= u32::MAX
            &&& to <= c.len() ==> le32(index, 88) + le32(index, 92) <= u32::MAX
            &&& to <= c.len() ==> (index_entries(index) matches Some(entries) ==> {
                &&& entries.files.len() * most <= u64::MAX
                &&& forall|k: int|
                    0 <= k < entries.files.len() ==> (#[trigger] entries.files[k]).size <= most
                &&& forall|k: int|
                    0 <= k < entries.files.len() ==> (#[trigger] entries.files[k]).offset
                        + entries.files[k].len <= u64::MAX
                &&& forall|k: int|
                    0 <= k < entries.chunks.len() ==> (#[trigger] entries.chunks[k]).offset
                        + entries.chunks[k].len <= u64::MAX
                &&& forall|k: int|
                    0 <= k < entries.chunks.len() ==> (#[trigger] entries.chunks[k]).plain_len
                        <= isize::MAX
            })
        }) ==> {
            &&& file_fits(c, path)
            &&& state_fits(c)
            &&& file_entry(c, path) == container_file(c, path)
            &&& tlv_entry(c, ty) == container_tlv(c, ty)
        },
{
    let from = le64(c, 0x48);
    let to = le64(c, 0x48) + le64(c, 0x50);
    let index = c.subrange(from, to);
    if to <= c.len() && index_entries(index) is Some {
        let files = index_entries(index)->Some_0.files;
        if forall|k: int| 0 <= k < files.len() ==> (#[trigger] files[k]).size <= most {
            lemma_small_sizes(files, most);
        }
    }
}

proof fn lemma_small_sizes(files: Seq<FilePlaceView>, most: nat)
    requires
        forall|k: int| 0 <= k < files.len() ==> (#[trigger] files[k]).size <= most,
    ensures
        total_size(files) <= files.len() * most,
    decreases files.len(),
{
    if files.len() > 0 {
        lemma_small_sizes(files.drop_last(), most);
        assert(files.last().size <= most);
        assert(files.len() * most == (files.len() - 1) * most + most) by (nonlinear_arith);
    }
}

/// A container that is not refused holds no number that the reader could trip over:
/// the end of the State Section can be counted, and so can, where the chunks are
/// not encrypted, the end of the index and, where no counts are promised, the end
/// of the chunk of the file; and where that chunk has the hash that it should have,
/// it unpacks to no more than a slice can hold, and the end of the file in it can be
/// counted.
pub proof fn law_what_fits_is_in_range(c: Seq<u8>, path: Seq<char>, k: int)
    ensures
        state_fits(c) && has_header(c) ==> le64(c, 0x18) + le64(c, 0x20) <= usize::MAX,
        file_fits(c, path) ==> state_fits(c),
        ({
            let state = le64(c, 0x18);
            let from = le64(c, 0x48);
            let to = le64(c, 0x48) + le64(c, 0x50);
            let index = c.subrange(from, to);
            file_fits(c, path) && has_header(c) && state + 72 <= state + le64(c, 0x20) <= c.len()
                && (c[state + 16] / 4) % 2 == 0 && container_tlv(c, 0x0100) is Ok && container_tlv(
                c,
                0x0100,
            )->Ok_0 is Some ==> {
                &&& to <= usize::MAX
                &&& to <= c.len() && (c[state + 16] / 8) % 2 == 0 ==> (index_entries(index)
                    matches Some(entries) ==> {
                    let file = entries.files[k];
                    let chunk = entries.chunks[file.chunk as int];
                    0 <= k < entries.files.len() && file.path == path && (forall|j: int|
                        0 <= j < k ==> (#[trigger] entries.files[j]).path != path)
                        && (file.chunk as int) < entries.chunks.len() ==> {
                        &&& chunk.offset + chunk.len <= usize::MAX
                        &&& chunk.offset + chunk.len <= c.len() && digest(
                            c.subrange(chunk.offset as int, chunk.offset + chunk.len),
                        ) == chunk.hash@ ==> {
                            &&& chunk.plain_len <= isize::MAX
                            &&& file.offset + file.len <= usize::MAX
                        }
                    }
                })
            }
        }),
{
    let from = le64(c, 0x48);
    let to = le64(c, 0x48) + le64(c, 0x50);
    let index = c.subrange(from, to);
    if index_entries(index) is Some {
        let entries = index_entries(index)->Some_0;
        if 0 <= k < entries.files.len() && entries.files[k].path == path && (forall|j: int|
            0 <= j < k ==> (#[trigger] entries.files[j]).path != path) {
            assert(is_first(entries.files, path, k));
        }
    }
}

/// The container that is asked about in place of one with a file out of range is as
/// long, and differs from it within the index alone.
pub proof fn law_an_emptied_file_changes_the_index_alone(c: Seq<u8>, path: Seq<char>, i: int)
    ensures
        emptied(c, path) matches Some(other) ==> {
            &&& other.len() == c.len()
            &&& 0 <= i < c.len() && (i < le64(c, 0x48) || le64(c, 0x48) + le64(c, 0x50) <= i)
                ==> other[i] == c[i]
        },
{
    if emptied(c, path) is Some {
        let index = c.subrange(index_offset(c), index_end(c));
        let head = active_head(index)->Some_0;
        let at = le32(index, head + 24);
        let len = le32(index, head + 28);
        let entries = index_entries(index)->Some_0;
        let k = choose|k: int| is_first(entries.files, path, k);
        let entry = at + file_entry_at(le32(index, at + 28), k);
        let emptied = put(index, entry + 8, Seq::new(16, |i: int| 0u8));
        let unhashed = put(emptied, at + 48, Seq::new(DIGEST_SIZE as nat, |i: int| 0u8));
        assert(emptied.len() == index.len());
        assert(unhashed.len() == index.len());
        assert(with_file_emptied(index, at, len, k).len() == index.len());
    }
}

/// Which of the two heads of an index counts: one that is valid and not marked as
/// invalid, the one with the higher number where both are such, and the first where
/// the numbers are the same.
pub proof fn law_which_head_of_an_index_counts(index: Seq<u8>)
    ensures
        ({
            let first = index_head_valid(index.subrange(0, 64)) && (index[20] / 2) % 2 == 0;
            let second = index_head_valid(index.subrange(64, 128)) && (index[84] / 2) % 2 == 0;
            let newer = le64(index, 76) > le64(index, 12);
            &&& index.len() < 128 ==> active_head(index) is None
            &&& index.len() >= 128 && first && !(second && newer) ==> active_head(index) == Some(0int)
            &&& index.len() >= 128 && second && (newer || !first) ==> active_head(index) == Some(
                64int,
            )
            &&& index.len() >= 128 && !first && !second ==> active_head(index) is None
        }),
{
}

/// The generation that the head of an index points to has an end that can be counted,
/// where the index is not refused; and where counts are promised and can be made out,
/// the sizes of all files can be added up.
pub proof fn law_what_fits_can_be_added_up(
    c: Seq<u8>,
    path: Seq<char>,
    files: Seq<FilePlaceView>,
    file: FilePlaceView,
)
    ensures
        total_size(seq![]) == 0,
        total_size(files.push(file)) == total_size(files) + file.size,
        ({
            let state = le64(c, 0x18);
            let from = le64(c, 0x48);
            let to = le64(c, 0x48) + le64(c, 0x50);
            let index = c.subrange(from, to);
            let promises = container_tlv(c, 0x0100)->Ok_0->Some_0;
            file_fits(c, path) && has_header(c) && state + 72 <= state + le64(c, 0x20) <= c.len()
                && (c[state + 16] / 4) % 2 == 0 && container_tlv(c, 0x0100) is Ok && container_tlv(
                c,
                0x0100,
            )->Ok_0 is Some && to <= c.len() ==> {
                &&& active_head(index) matches Some(head) ==> le32(index, head + 24) + le32(
                    index,
                    head + 28,
                ) <= u32::MAX
                &&& (c[state + 16] / 8) % 2 == 1 && promises.len() == 28 && promises[0] == 1
                    && promises[1] == 0 ==> (index_entries(index) matches Some(entries)
                    ==> total_size(entries.files) <= u64::MAX)
            }
        }),
{
    assert(files.push(file).drop_last() =~= files);
}

} // verus!
