//! The container format: an in-memory representation of one batch of blobs
//! and its bit-exact translation to and from the on-disk byte layout.
//!
//! On disk a container is, in order and with every multi-byte integer
//! little-endian:
//! - a file header: `magic` (4 bytes) and `checksum` (4 bytes);
//! - a data header: `version`, `type_id`, `toc_size` (4 bytes each) and
//!   44 reserved bytes;
//! - the table of contents: `toc_size` records of 16 bytes each;
//! - the payload: every blob's bytes concatenated in append order.
//!
//! The checksum is a CRC-32 over the data header, the table of contents and
//! the payload. The entry count in the header is regenerated from the table
//! itself, never trusted from a stale stored value; the version and reserved
//! words are covered as the container holds them, so on reading a file every
//! stored byte outside the magic and the checksum field is bound by the
//! checksum.

use vstd::prelude::*;
use vstd::bytes::*;
use vstd::slice::{slice_subrange, slice_to_vec};

verus! {

broadcast use vstd::array::group_array_axioms;

/// Identifies a container file before any other byte is interpreted.
pub const MAGIC: u32 = 0xDADADADA;

/// Current revision of the container layout.
pub const VERSION: u32 = 0;

/// Number of reserved 32-bit words in the data header.
pub const RESERVED_WORDS: usize = 11;

/// One persisted, checksummed batch of blobs sharing a logical type.
pub struct Container {
    pub file_header: FileHeader,
    pub data_header: DataHeader,
    pub toc: Vec<TocEntry>,
    pub data: Vec<u8>,
}

/// The first eight on-disk bytes: the magic constant and the checksum.
pub struct FileHeader {
    pub magic: u32,
    pub checksum: u32,
}

/// The self-describing metadata that the checksum covers.
pub struct DataHeader {
    pub version: u32,
    pub type_id: u32,
    pub toc_size: u32,
    pub reserved: [u32; 11],
}

/// Metadata for one blob within a container.
#[derive(Clone, Copy, Debug, PartialEq, Eq, Structural)]
pub struct TocEntry {
    pub writer_id: u32,
    pub data_size: u32,
    pub timestamp: u64,
}

/// Why a byte stream was rejected as a container.
#[derive(Clone, Copy, Debug, PartialEq, Eq, Structural)]
pub enum DecodeError {
    /// The stream does not begin with the magic constant (or is too short
    /// to carry one): not a recognized container at all.
    Format,
    /// The stream carries the magic but is corrupt: the stored checksum
    /// disagrees with the recomputed one, or the stream ends before its
    /// declared structure does.
    Integrity,
}

/// The mathematical content of a `Container`.
#[verifier::ext_equal]
pub struct ContainerModel {
    pub checksum: u32,
    pub version: u32,
    pub type_id: u32,
    pub toc_size: u32,
    pub reserved: Seq<u32>,
    pub toc: Seq<TocEntry>,
    pub data: Seq<u8>,
}

impl View for Container {
    type V = ContainerModel;

    open spec fn view(&self) -> ContainerModel {
        ContainerModel {
            checksum: self.file_header.checksum,
            version: self.data_header.version,
            type_id: self.data_header.type_id,
            toc_size: self.data_header.toc_size,
            reserved: self.data_header.reserved@,
            toc: self.toc@,
            data: self.data@,
        }
    }
}

/// The reserved words as they are written: all zero.
pub open spec fn spec_reserved() -> Seq<u32> {
    Seq::new(RESERVED_WORDS as nat, |i: int| 0u32)
}

/// The content of a container created empty for `type_id`.
pub open spec fn spec_empty_model(type_id: u32) -> ContainerModel {
    ContainerModel {
        checksum: 0,
        version: VERSION,
        type_id,
        toc_size: 0,
        reserved: spec_reserved(),
        toc: Seq::empty(),
        data: Seq::empty(),
    }
}

/// The bytes of a sequence of 32-bit words, each little-endian.
pub open spec fn spec_u32s_le_bytes(s: Seq<u32>) -> Seq<u8>
    decreases s.len(),
{
    if s.len() == 0 {
        Seq::empty()
    } else {
        spec_u32s_le_bytes(s.drop_last()) + spec_u32_to_le_bytes(s.last())
    }
}

/// The eight bytes of the file header.
pub open spec fn spec_file_header_bytes(h: FileHeader) -> Seq<u8> {
    spec_u32_to_le_bytes(h.magic) + spec_u32_to_le_bytes(h.checksum)
}

/// The 56 bytes of a data header.
pub open spec fn spec_data_header_bytes(version: u32, type_id: u32, toc_size: u32, reserved: Seq<u32>) -> Seq<u8> {
    spec_u32_to_le_bytes(version) + spec_u32_to_le_bytes(type_id) + spec_u32_to_le_bytes(toc_size)
        + spec_u32s_le_bytes(reserved)
}

/// The 16 bytes of one table-of-contents record.
pub open spec fn spec_toc_entry_bytes(e: TocEntry) -> Seq<u8> {
    spec_u32_to_le_bytes(e.writer_id) + spec_u32_to_le_bytes(e.data_size)
        + spec_u64_to_le_bytes(e.timestamp)
}

/// The bytes of a whole table of contents, records in order.
pub open spec fn spec_toc_bytes(toc: Seq<TocEntry>) -> Seq<u8>
    decreases toc.len(),
{
    if toc.len() == 0 {
        Seq::empty()
    } else {
        spec_toc_bytes(toc.drop_last()) + spec_toc_entry_bytes(toc.last())
    }
}

/// The bytes the checksum covers: the data header with its entry count
/// regenerated from the table itself, then the table of contents, then the
/// payload. The version and reserved words enter as the container holds
/// them, binding every stored header byte.
pub open spec fn spec_content_bytes(version: u32, type_id: u32, reserved: Seq<u32>, toc: Seq<TocEntry>, data: Seq<u8>) -> Seq<u8> {
    spec_data_header_bytes(version, type_id, toc.len() as u32, reserved)
        + spec_toc_bytes(toc) + data
}

/// The complete on-disk image of a container.
pub open spec fn spec_encode_bytes(version: u32, type_id: u32, reserved: Seq<u32>, toc: Seq<TocEntry>, data: Seq<u8>) -> Seq<u8> {
    spec_u32_to_le_bytes(MAGIC)
        + spec_u32_to_le_bytes(crc32_of(spec_content_bytes(version, type_id, reserved, toc, data)))
        + spec_content_bytes(version, type_id, reserved, toc, data)
}

/// The CRC-32 (IEEE) checksum of a byte sequence; a function of the bytes alone.
pub uninterp spec fn crc32_of(bytes: Seq<u8>) -> u32;

/// Relies on `crc32fast::hash`: the CRC-32 (IEEE) checksum of the slice,
/// depending on the bytes alone.
#[verifier::external_body]
fn crc32(bytes: &[u8]) -> (r: u32)
    ensures
        r == crc32_of(bytes@),
{
    crc32fast::hash(bytes)
}

/// Relies on `std::time::SystemTime::now`: seconds since the Unix epoch,
/// or zero if the clock reads earlier than the epoch. Nothing is promised
/// of the value.
#[verifier::external_body]
fn now_secs() -> u64 {
    std::time::SystemTime::now()
        .duration_since(std::time::UNIX_EPOCH)
        .map(|d| d.as_secs())
        .unwrap_or(0)
}

impl FileHeader {
    pub fn new(checksum: u32) -> (r: FileHeader)
        ensures
            r.magic == MAGIC,
            r.checksum == checksum,
    {
        FileHeader { magic: MAGIC, checksum }
    }

    pub fn as_bytes(&self) -> (r: Vec<u8>)
        ensures
            r@ == spec_file_header_bytes(*self),
    {
        let mut buf = u32_to_le_bytes(self.magic);
        let mut cs = u32_to_le_bytes(self.checksum);
        buf.append(&mut cs);
        buf
    }
}

impl DataHeader {
    pub fn new(version: u32, type_id: u32, toc_size: u32, reserved: [u32; 11]) -> (r: DataHeader)
        ensures
            r.version == version,
            r.type_id == type_id,
            r.toc_size == toc_size,
            r.reserved@ == reserved@,
    {
        DataHeader { version, type_id, toc_size, reserved }
    }

    pub fn as_bytes(&self) -> (r: Vec<u8>)
        ensures
            r@ == spec_data_header_bytes(self.version, self.type_id, self.toc_size, self.reserved@),
    {
        let mut buf = u32_to_le_bytes(self.version);
        let mut tid = u32_to_le_bytes(self.type_id);
        buf.append(&mut tid);
        let mut tsz = u32_to_le_bytes(self.toc_size);
        buf.append(&mut tsz);
        let ghost prefix = buf@;
        let mut i: usize = 0;
        while i < 11
            invariant
                i <= 11,
                buf@ == prefix + spec_u32s_le_bytes(self.reserved@.take(i as int)),
            decreases 11 - i,
        {
            let mut word = u32_to_le_bytes(self.reserved[i]);
            buf.append(&mut word);
            proof {
                lemma_u32s_le_bytes_take_step(self.reserved@, i as int);
            }
            i += 1;
        }
        proof {
            assert(self.reserved@.take(11) =~= self.reserved@);
        }
        buf
    }
}

impl TocEntry {
    /// A record stamped with the wall clock at the moment of acceptance.
    pub fn new(writer_id: u32, data_size: u32) -> (r: TocEntry)
        ensures
            r.writer_id == writer_id,
            r.data_size == data_size,
    {
        TocEntry::new_with_timestamp(writer_id, data_size, now_secs())
    }

    /// A record with an explicit timestamp, for deterministic reconstruction.
    pub fn new_with_timestamp(writer_id: u32, data_size: u32, timestamp: u64) -> (r: TocEntry)
        ensures
            r == (TocEntry { writer_id, data_size, timestamp }),
    {
        TocEntry { writer_id, data_size, timestamp }
    }

    pub fn as_bytes(&self) -> (r: Vec<u8>)
        ensures
            r@ == spec_toc_entry_bytes(*self),
    {
        let mut buf = u32_to_le_bytes(self.writer_id);
        let mut dsz = u32_to_le_bytes(self.data_size);
        buf.append(&mut dsz);
        let mut ts = u64_to_le_bytes(self.timestamp);
        buf.append(&mut ts);
        buf
    }
}

/// Total payload size the table of contents declares.
pub open spec fn spec_sum_sizes(toc: Seq<TocEntry>) -> int
    decreases toc.len(),
{
    if toc.len() == 0 {
        0
    } else {
        spec_sum_sizes(toc.drop_last()) + toc.last().data_size
    }
}

impl Container {
    /// Structural soundness: the magic is in place and the entry count is
    /// representable in the header's 4-byte field.
    pub open spec fn wf(self) -> bool {
        &&& self.file_header.magic == MAGIC
        &&& self.toc@.len() <= u32::MAX
    }

    /// The declared sizes account for the payload exactly, with no padding.
    pub open spec fn sizes_consistent(self) -> bool {
        spec_sum_sizes(self.toc@) == self.data@.len()
    }

    /// An empty container bound to one logical type.
    pub fn new(type_id: u32) -> (r: Container)
        ensures
            r@ =~= spec_empty_model(type_id),
            r.wf(),
            r.sizes_consistent(),
    {
        let reserved: [u32; 11] = [0u32; 11];
        proof {
            assert(reserved@ =~= spec_reserved());
        }
        Container {
            file_header: FileHeader::new(0),
            data_header: DataHeader::new(VERSION, type_id, 0, reserved),
            toc: Vec::new(),
            data: Vec::new(),
        }
    }

    /// Appends one blob: a table-of-contents record stamped with the wall
    /// clock, and the blob's bytes at the end of the payload.
    pub fn push(&mut self, writer_id: u32, data: &[u8])
        requires
            old(self).wf(),
            old(self).toc@.len() < u32::MAX,
            data@.len() <= u32::MAX,
        ensures
            final(self).wf(),
            final(self).data@ == old(self).data@ + data@,
            final(self).toc@.len() == old(self).toc@.len() + 1,
            final(self).toc@.drop_last() == old(self).toc@,
            final(self).toc@.last().writer_id == writer_id,
            final(self).toc@.last().data_size == data@.len() as u32,
            final(self).file_header == old(self).file_header,
            final(self).data_header == old(self).data_header,
            old(self).sizes_consistent() ==> final(self).sizes_consistent(),
    {
        let mut blob = slice_to_vec(data);
        self.data.append(&mut blob);
        let entry = TocEntry::new(writer_id, data.len() as u32);
        self.toc.push(entry);
        proof {
            assert(final(self).toc@ == old(self).toc@.push(entry));
            assert(final(self).toc@.drop_last() =~= old(self).toc@);
            if old(self).sizes_consistent() {
                assert(spec_sum_sizes(final(self).toc@)
                    == spec_sum_sizes(old(self).toc@) + data@.len());
            }
        }
    }

    /// The data header as it is written: the stored version, type and
    /// reserved words, with the entry count regenerated from the table
    /// itself.
    pub fn get_data_header(&self) -> (r: DataHeader)
        requires
            self.wf(),
        ensures
            r.version == self@.version,
            r.type_id == self@.type_id,
            r.toc_size == self@.toc.len(),
            r.reserved@ == self@.reserved,
    {
        DataHeader::new(
            self.data_header.version,
            self.data_header.type_id,
            self.toc.len() as u32,
            self.data_header.reserved,
        )
    }

    /// The checksummed region: the data header with a regenerated entry
    /// count, the table of contents, the payload.
    fn content_bytes(&self) -> (r: Vec<u8>)
        requires
            self.wf(),
        ensures
            r@ == spec_content_bytes(self@.version, self@.type_id, self@.reserved, self@.toc, self@.data),
    {
        let mut buf = self.get_data_header().as_bytes();
        let ghost header = buf@;
        let mut i: usize = 0;
        while i < self.toc.len()
            invariant
                i <= self.toc@.len(),
                self.wf(),
                buf@ == header + spec_toc_bytes(self.toc@.take(i as int)),
            decreases self.toc@.len() - i,
        {
            let mut record = self.toc[i].as_bytes();
            buf.append(&mut record);
            proof {
                lemma_toc_bytes_take_step(self.toc@, i as int);
            }
            i += 1;
        }
        proof {
            assert(self.toc@.take(self.toc@.len() as int) =~= self.toc@);
        }
        let mut payload = slice_to_vec(self.data.as_slice());
        buf.append(&mut payload);
        buf
    }

    /// The CRC-32 over the content region.
    pub fn checksum(&self) -> (r: u32)
        requires
            self.wf(),
        ensures
            r == crc32_of(spec_content_bytes(self@.version, self@.type_id, self@.reserved, self@.toc, self@.data)),
    {
        let content = self.content_bytes();
        crc32(content.as_slice())
    }

    /// The complete on-disk image: file header with a freshly computed
    /// checksum, then the content region.
    pub fn encode(&self) -> (r: Vec<u8>)
        requires
            self.wf(),
        ensures
            r@ == spec_encode_bytes(self@.version, self@.type_id, self@.reserved, self@.toc, self@.data),
    {
        let mut content = self.content_bytes();
        let cs = crc32(content.as_slice());
        let mut buf = FileHeader::new(cs).as_bytes();
        buf.append(&mut content);
        buf
    }
}

/// The result of reading back a byte stream, before anything is trusted.
///
/// The magic constant is checked first: a stream that does not start with it
/// (or cannot even carry one) is rejected as foreign before any other byte
/// is interpreted. A stream that carries the magic but ends before its
/// declared structure does is corrupt, an integrity failure. Otherwise the
/// checksum is recomputed over the content as read — stored version and
/// reserved words included — and held against the stored one; only on
/// agreement is the container returned.
pub open spec fn spec_decode(b: Seq<u8>) -> Result<ContainerModel, DecodeError> {
    if b.len() < 4 {
        Err(DecodeError::Format)
    } else if spec_u32_from_le_bytes(b.subrange(0, 4)) != MAGIC {
        Err(DecodeError::Format)
    } else if b.len() < 64 {
        Err(DecodeError::Integrity)
    } else {
        let checksum = spec_u32_from_le_bytes(b.subrange(4, 8));
        let version = spec_u32_from_le_bytes(b.subrange(8, 12));
        let type_id = spec_u32_from_le_bytes(b.subrange(12, 16));
        let toc_size = spec_u32_from_le_bytes(b.subrange(16, 20));
        let reserved = Seq::new(
            RESERVED_WORDS as nat,
            |i: int| spec_u32_from_le_bytes(b.subrange(20 + 4 * i, 24 + 4 * i)),
        );
        if b.len() < 64 + 16 * (toc_size as int) {
            Err(DecodeError::Integrity)
        } else {
            let toc = Seq::new(
                toc_size as nat,
                |i: int| TocEntry {
                    writer_id: spec_u32_from_le_bytes(b.subrange(64 + 16 * i, 68 + 16 * i)),
                    data_size: spec_u32_from_le_bytes(b.subrange(68 + 16 * i, 72 + 16 * i)),
                    timestamp: spec_u64_from_le_bytes(b.subrange(72 + 16 * i, 80 + 16 * i)),
                },
            );
            let data = b.subrange(64 + 16 * (toc_size as int), b.len() as int);
            if checksum != crc32_of(spec_content_bytes(version, type_id, reserved, toc, data)) {
                Err(DecodeError::Integrity)
            } else {
                Ok(ContainerModel { checksum, version, type_id, toc_size, reserved, toc, data })
            }
        }
    }
}

impl Container {
    /// Reads a container back from its on-disk image, verifying the magic
    /// constant and then the checksum; nothing is partially trusted.
    pub fn decode(bytes: &[u8]) -> (r: Result<Container, DecodeError>)
        ensures
            match r {
                Ok(c) => spec_decode(bytes@) == Ok::<ContainerModel, DecodeError>(c@) && c.wf(),
                Err(e) => spec_decode(bytes@) == Err::<ContainerModel, DecodeError>(e),
            },
    {
        if bytes.len() < 4 {
            return Err(DecodeError::Format);
        }
        let magic = u32_from_le_bytes(slice_subrange(bytes, 0, 4));
        if magic != MAGIC {
            return Err(DecodeError::Format);
        }
        if bytes.len() < 64 {
            return Err(DecodeError::Integrity);
        }
        let checksum = u32_from_le_bytes(slice_subrange(bytes, 4, 8));
        let version = u32_from_le_bytes(slice_subrange(bytes, 8, 12));
        let type_id = u32_from_le_bytes(slice_subrange(bytes, 12, 16));
        let toc_size = u32_from_le_bytes(slice_subrange(bytes, 16, 20));
        let mut reserved: [u32; 11] = [0u32; 11];
        let mut w: usize = 0;
        while w < 11
            invariant
                w <= 11,
                bytes@.len() >= 64,
                forall|j: int| 0 <= j < w ==> reserved@[j]
                    == spec_u32_from_le_bytes(bytes@.subrange(20 + 4 * j, 24 + 4 * j)),
            decreases 11 - w,
        {
            reserved[w] = u32_from_le_bytes(slice_subrange(bytes, 20 + 4 * w, 24 + 4 * w));
            w += 1;
        }
        let need: u64 = 64u64 + 16u64 * (toc_size as u64);
        let blen: usize = bytes.len();
        if (blen as u64) < need {
            return Err(DecodeError::Integrity);
        }
        let mut toc: Vec<TocEntry> = Vec::new();
        let mut i: usize = 0;
        while i < toc_size as usize
            invariant
                i <= toc_size as usize,
                bytes@.len() >= 64 + 16 * (toc_size as int),
                bytes@.len() <= usize::MAX,
                toc@.len() == i,
                forall|j: int| 0 <= j < i ==> toc@[j] == (TocEntry {
                    writer_id: spec_u32_from_le_bytes(bytes@.subrange(64 + 16 * j, 68 + 16 * j)),
                    data_size: spec_u32_from_le_bytes(bytes@.subrange(68 + 16 * j, 72 + 16 * j)),
                    timestamp: spec_u64_from_le_bytes(bytes@.subrange(72 + 16 * j, 80 + 16 * j)),
                }),
            decreases toc_size as int - i,
        {
            proof {
                assert(16 * (i as int) + 16 <= 16 * (toc_size as int)) by (nonlinear_arith)
                    requires (i as int) < (toc_size as int);
            }
            let off: usize = 64 + 16 * i;
            let wr = u32_from_le_bytes(slice_subrange(bytes, off, off + 4));
            let ds = u32_from_le_bytes(slice_subrange(bytes, off + 4, off + 8));
            let ts = u64_from_le_bytes(slice_subrange(bytes, off + 8, off + 16));
            toc.push(TocEntry { writer_id: wr, data_size: ds, timestamp: ts });
            i += 1;
        }
        let data_off: usize = 64 + 16 * (toc_size as usize);
        let data = slice_to_vec(slice_subrange(bytes, data_off, bytes.len()));
        let container = Container {
            file_header: FileHeader::new(checksum),
            data_header: DataHeader::new(version, type_id, toc_size, reserved),
            toc,
            data,
        };
        proof {
            let b = bytes@;
            assert(container@.reserved =~= Seq::new(
                RESERVED_WORDS as nat,
                |i: int| spec_u32_from_le_bytes(b.subrange(20 + 4 * i, 24 + 4 * i)),
            ));
            assert(container@.toc =~= Seq::new(
                toc_size as nat,
                |i: int| TocEntry {
                    writer_id: spec_u32_from_le_bytes(b.subrange(64 + 16 * i, 68 + 16 * i)),
                    data_size: spec_u32_from_le_bytes(b.subrange(68 + 16 * i, 72 + 16 * i)),
                    timestamp: spec_u64_from_le_bytes(b.subrange(72 + 16 * i, 80 + 16 * i)),
                },
            ));
        }
        let computed = container.checksum();
        if computed != container.file_header.checksum {
            return Err(DecodeError::Integrity);
        }
        proof {
            let m = spec_decode(bytes@)->Ok_0;
            assert(m =~= container@);
        }
        Ok(container)
    }
}

/// The bytes of a word sequence are four per word.
proof fn lemma_u32s_le_bytes_len(s: Seq<u32>)
    ensures
        spec_u32s_le_bytes(s).len() == 4 * s.len(),
    decreases s.len(),
{
    lemma_auto_spec_u32_to_from_le_bytes();
    if s.len() > 0 {
        lemma_u32s_le_bytes_len(s.drop_last());
    }
}

/// Word `i` occupies bytes `4i .. 4i + 4` of its sequence's encoding.
proof fn lemma_u32s_le_bytes_index(s: Seq<u32>, i: int)
    requires
        0 <= i < s.len(),
    ensures
        spec_u32s_le_bytes(s).subrange(4 * i, 4 * i + 4) == spec_u32_to_le_bytes(s[i]),
    decreases s.len(),
{
    lemma_auto_spec_u32_to_from_le_bytes();
    lemma_u32s_le_bytes_len(s);
    lemma_u32s_le_bytes_len(s.drop_last());
    if i == s.len() - 1 {
        assert(spec_u32s_le_bytes(s).subrange(4 * i, 4 * i + 4)
            =~= spec_u32_to_le_bytes(s.last()));
    } else {
        lemma_u32s_le_bytes_index(s.drop_last(), i);
        assert(spec_u32s_le_bytes(s).subrange(4 * i, 4 * i + 4)
            =~= spec_u32s_le_bytes(s.drop_last()).subrange(4 * i, 4 * i + 4));
    }
}

/// The table of contents occupies sixteen bytes per record.
proof fn lemma_toc_bytes_len(toc: Seq<TocEntry>)
    ensures
        spec_toc_bytes(toc).len() == 16 * toc.len(),
    decreases toc.len(),
{
    lemma_auto_spec_u32_to_from_le_bytes();
    lemma_auto_spec_u64_to_from_le_bytes();
    if toc.len() > 0 {
        lemma_toc_bytes_len(toc.drop_last());
    }
}

/// Record `i` occupies bytes `16i .. 16i + 16` of the table's encoding.
proof fn lemma_toc_bytes_index(toc: Seq<TocEntry>, i: int)
    requires
        0 <= i < toc.len(),
    ensures
        spec_toc_bytes(toc).subrange(16 * i, 16 * i + 16) == spec_toc_entry_bytes(toc[i]),
    decreases toc.len(),
{
    lemma_auto_spec_u32_to_from_le_bytes();
    lemma_auto_spec_u64_to_from_le_bytes();
    lemma_toc_bytes_len(toc);
    lemma_toc_bytes_len(toc.drop_last());
    if i == toc.len() - 1 {
        assert(spec_toc_bytes(toc).subrange(16 * i, 16 * i + 16)
            =~= spec_toc_entry_bytes(toc.last()));
    } else {
        lemma_toc_bytes_index(toc.drop_last(), i);
        assert(spec_toc_bytes(toc).subrange(16 * i, 16 * i + 16)
            =~= spec_toc_bytes(toc.drop_last()).subrange(16 * i, 16 * i + 16));
    }
}

/// Round-trip: decoding the encoding of any container returns it.
///
/// For every header and every table of contents and payload that fit the
/// format, decoding the encoded image succeeds and yields the same version,
/// logical type and reserved words, the same ordered records and the
/// byte-identical payload, with the stored checksum equal to the CRC-32 of
/// the content region.
pub proof fn lemma_encode_decode_round_trip(version: u32, type_id: u32, reserved: Seq<u32>, toc: Seq<TocEntry>, data: Seq<u8>)
    requires
        toc.len() <= u32::MAX,
        reserved.len() == RESERVED_WORDS,
    ensures
        spec_decode(spec_encode_bytes(version, type_id, reserved, toc, data)) matches Ok(m)
            && m.type_id == type_id
            && m.toc == toc
            && m.data == data
            && m.version == version
            && m.toc_size == toc.len()
            && m.reserved == reserved
            && m.checksum == crc32_of(spec_content_bytes(version, type_id, reserved, toc, data)),
{
    lemma_auto_spec_u32_to_from_le_bytes();
    lemma_auto_spec_u64_to_from_le_bytes();
    lemma_u32s_le_bytes_len(reserved);
    lemma_toc_bytes_len(toc);
    let content = spec_content_bytes(version, type_id, reserved, toc, data);
    let cs = crc32_of(content);
    let e = spec_encode_bytes(version, type_id, reserved, toc, data);
    let n = toc.len() as int;
    assert(content.len() == 56 + 16 * n + data.len());
    assert(e.len() == 64 + 16 * n + data.len());
    assert(e.subrange(0, 4) =~= spec_u32_to_le_bytes(MAGIC));
    assert(e.subrange(4, 8) =~= spec_u32_to_le_bytes(cs));
    assert(e.subrange(8, 12) =~= spec_u32_to_le_bytes(version));
    assert(e.subrange(12, 16) =~= spec_u32_to_le_bytes(type_id));
    assert(e.subrange(16, 20) =~= spec_u32_to_le_bytes(toc.len() as u32));
    assert forall|i: int| 0 <= i < RESERVED_WORDS as int implies #[trigger] spec_u32_from_le_bytes(
        e.subrange(20 + 4 * i, 24 + 4 * i),
    ) == reserved[i] by {
        lemma_u32s_le_bytes_index(reserved, i);
        assert(e.subrange(20 + 4 * i, 24 + 4 * i)
            =~= spec_u32s_le_bytes(reserved).subrange(4 * i, 4 * i + 4));
    }
    let toc_size = spec_u32_from_le_bytes(e.subrange(16, 20));
    assert(toc_size == toc.len() as u32);
    let toc_read = Seq::new(
        toc_size as nat,
        |i: int| TocEntry {
            writer_id: spec_u32_from_le_bytes(e.subrange(64 + 16 * i, 68 + 16 * i)),
            data_size: spec_u32_from_le_bytes(e.subrange(68 + 16 * i, 72 + 16 * i)),
            timestamp: spec_u64_from_le_bytes(e.subrange(72 + 16 * i, 80 + 16 * i)),
        },
    );
    let reserved_read = Seq::new(
        RESERVED_WORDS as nat,
        |i: int| spec_u32_from_le_bytes(e.subrange(20 + 4 * i, 24 + 4 * i)),
    );
    let data_read = e.subrange(64 + 16 * (toc_size as int), e.len() as int);
    assert forall|i: int| 0 <= i < n implies #[trigger] toc_read[i] == toc[i] by {
        lemma_toc_bytes_index(toc, i);
        let eb = spec_toc_entry_bytes(toc[i]);
        assert(e.subrange(64 + 16 * i, 68 + 16 * i) =~= eb.subrange(0, 4));
        assert(e.subrange(68 + 16 * i, 72 + 16 * i) =~= eb.subrange(4, 8));
        assert(e.subrange(72 + 16 * i, 80 + 16 * i) =~= eb.subrange(8, 16));
        assert(eb.subrange(0, 4) =~= spec_u32_to_le_bytes(toc[i].writer_id));
        assert(eb.subrange(4, 8) =~= spec_u32_to_le_bytes(toc[i].data_size));
        assert(eb.subrange(8, 16) =~= spec_u64_to_le_bytes(toc[i].timestamp));
    }
    assert(toc_read =~= toc);
    assert(reserved_read =~= reserved);
    assert(data_read =~= data);
    assert(spec_u32_from_le_bytes(e.subrange(4, 8)) == cs);
    assert(crc32_of(spec_content_bytes(
        spec_u32_from_le_bytes(e.subrange(8, 12)),
        spec_u32_from_le_bytes(e.subrange(12, 16)),
        reserved_read,
        toc_read,
        data_read,
    )) == cs);
}

/// A container with zero entries round-trips: its image decodes to an empty
/// table of contents and an empty payload.
pub proof fn lemma_empty_round_trip(type_id: u32)
    ensures
        spec_decode(spec_encode_bytes(VERSION, type_id, spec_reserved(), Seq::empty(), Seq::empty()))
            matches Ok(m)
            && m.type_id == type_id
            && m.toc == Seq::<TocEntry>::empty()
            && m.data == Seq::<u8>::empty(),
{
    lemma_encode_decode_round_trip(VERSION, type_id, spec_reserved(), Seq::empty(), Seq::empty());
}

/// The one piece of corruption detection that holds independently of the
/// checksum function itself: altering only the stored-checksum field of a
/// valid image is always caught as an integrity failure. The content region
/// is untouched, so the recomputed checksum still equals the original one,
/// while the altered stored value can no longer agree with it. (Detection
/// of corruption inside the content region is the checksum function's work
/// and is exercised by tests, not stated here.)
pub proof fn lemma_checksum_field_corruption(version: u32, type_id: u32, reserved: Seq<u32>, toc: Seq<TocEntry>, data: Seq<u8>, b: Seq<u8>)
    requires
        toc.len() <= u32::MAX,
        reserved.len() == RESERVED_WORDS,
        b.len() == spec_encode_bytes(version, type_id, reserved, toc, data).len(),
        forall|i: int|
            0 <= i < b.len() && !(4 <= i < 8)
                ==> b[i] == #[trigger] spec_encode_bytes(version, type_id, reserved, toc, data)[i],
        b.subrange(4, 8) != spec_encode_bytes(version, type_id, reserved, toc, data).subrange(4, 8),
    ensures
        spec_decode(b) == Err::<ContainerModel, DecodeError>(DecodeError::Integrity),
{
    lemma_auto_spec_u32_to_from_le_bytes();
    lemma_auto_spec_u64_to_from_le_bytes();
    lemma_u32s_le_bytes_len(reserved);
    lemma_toc_bytes_len(toc);
    lemma_encode_decode_round_trip(version, type_id, reserved, toc, data);
    let e = spec_encode_bytes(version, type_id, reserved, toc, data);
    let n = toc.len() as int;
    assert(e.len() == 64 + 16 * n + data.len());
    assert(b.subrange(0, 4) =~= e.subrange(0, 4));
    assert(b.subrange(8, 12) =~= e.subrange(8, 12));
    assert(b.subrange(12, 16) =~= e.subrange(12, 16));
    assert(b.subrange(16, 20) =~= e.subrange(16, 20));
    let toc_size = spec_u32_from_le_bytes(b.subrange(16, 20));
    assert(toc_size == toc.len() as u32);
    assert forall|i: int| 0 <= i < RESERVED_WORDS as int implies #[trigger] spec_u32_from_le_bytes(
        b.subrange(20 + 4 * i, 24 + 4 * i),
    ) == reserved[i] by {
        assert(b.subrange(20 + 4 * i, 24 + 4 * i) =~= e.subrange(20 + 4 * i, 24 + 4 * i));
        lemma_u32s_le_bytes_index(reserved, i);
        assert(e.subrange(20 + 4 * i, 24 + 4 * i)
            =~= spec_u32s_le_bytes(reserved).subrange(4 * i, 4 * i + 4));
    }
    let reserved_b = Seq::new(
        RESERVED_WORDS as nat,
        |i: int| spec_u32_from_le_bytes(b.subrange(20 + 4 * i, 24 + 4 * i)),
    );
    assert(reserved_b =~= reserved);
    assert forall|i: int| 0 <= i < n implies {
        &&& #[trigger] b.subrange(64 + 16 * i, 68 + 16 * i) == e.subrange(64 + 16 * i, 68 + 16 * i)
        &&& b.subrange(68 + 16 * i, 72 + 16 * i) == e.subrange(68 + 16 * i, 72 + 16 * i)
        &&& b.subrange(72 + 16 * i, 80 + 16 * i) == e.subrange(72 + 16 * i, 80 + 16 * i)
    } by {
        assert(b.subrange(64 + 16 * i, 68 + 16 * i) =~= e.subrange(64 + 16 * i, 68 + 16 * i));
        assert(b.subrange(68 + 16 * i, 72 + 16 * i) =~= e.subrange(68 + 16 * i, 72 + 16 * i));
        assert(b.subrange(72 + 16 * i, 80 + 16 * i) =~= e.subrange(72 + 16 * i, 80 + 16 * i));
    }
    let toc_b = Seq::new(
        toc_size as nat,
        |i: int| TocEntry {
            writer_id: spec_u32_from_le_bytes(b.subrange(64 + 16 * i, 68 + 16 * i)),
            data_size: spec_u32_from_le_bytes(b.subrange(68 + 16 * i, 72 + 16 * i)),
            timestamp: spec_u64_from_le_bytes(b.subrange(72 + 16 * i, 80 + 16 * i)),
        },
    );
    assert(toc_b =~= toc);
    assert(b.subrange(64 + 16 * n, b.len() as int) =~= data);
    let cs = crc32_of(spec_content_bytes(version, type_id, reserved, toc, data));
    assert(spec_u32_from_le_bytes(b.subrange(8, 12)) == version);
    assert(spec_u32_from_le_bytes(e.subrange(4, 8)) == cs);
    let cs_b = spec_u32_from_le_bytes(b.subrange(4, 8));
    assert(cs_b != cs) by {
        if cs_b == cs {
            assert(spec_u32_to_le_bytes(spec_u32_from_le_bytes(b.subrange(4, 8)))
                == spec_u32_to_le_bytes(spec_u32_from_le_bytes(e.subrange(4, 8))));
            assert(b.subrange(4, 8) == e.subrange(4, 8));
        }
    }
}

/// The magic check precedes the integrity check: a stream long enough to
/// carry a magic word that does not carry this format's is rejected as
/// foreign, never as corrupt, whatever its remaining bytes hold.
pub proof fn lemma_magic_checked_first(b: Seq<u8>)
    requires
        b.len() >= 4,
        spec_u32_from_le_bytes(b.subrange(0, 4)) != MAGIC,
    ensures
        spec_decode(b) == Err::<ContainerModel, DecodeError>(DecodeError::Format),
{
}

/// Unfolds one step of `spec_toc_bytes` over a growing prefix.
proof fn lemma_toc_bytes_take_step(toc: Seq<TocEntry>, i: int)
    requires
        0 <= i < toc.len(),
    ensures
        spec_toc_bytes(toc.take(i + 1))
            == spec_toc_bytes(toc.take(i)) + spec_toc_entry_bytes(toc[i]),
{
    assert(toc.take(i + 1).drop_last() =~= toc.take(i));
    assert(toc.take(i + 1).last() == toc[i]);
    assert(toc.take(i + 1).len() == i + 1);
}

/// Unfolds one step of `spec_u32s_le_bytes` over a growing prefix.
proof fn lemma_u32s_le_bytes_take_step(s: Seq<u32>, i: int)
    requires
        0 <= i < s.len(),
    ensures
        spec_u32s_le_bytes(s.take(i + 1))
            == spec_u32s_le_bytes(s.take(i)) + spec_u32_to_le_bytes(s[i]),
{
    assert(s.take(i + 1).drop_last() =~= s.take(i));
    assert(s.take(i + 1).last() == s[i]);
    assert(s.take(i + 1).len() == i + 1);
}

} // verus!
