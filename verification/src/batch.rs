use vstd::prelude::*;

use crate::checksum::crc32c_of;
use crate::codec::{
    add_sizes, lemma_wrapped_is_mod, wrapped, Decoded, Decoder, Encoded, Encoder, Error, Lossless,
    Version,
};
use crate::collections::{low_i32, truncate_i32};
use crate::ints::{lemma_be_bytes_len, twos_complement};
use crate::record::{Record, RecordHeader, RecordView};
use crate::{Offset, Size};

verus! {

/// A set of records that a batch can carry.
pub trait BatchRecords: Default + core::fmt::Debug + Encoder + Decoder {
    /// How many of the remaining bytes belong to the records.
    fn remainder_bytes(&self, remainder: usize) -> (bytes: usize)
        default_ensures
            bytes == remainder,
    {
        remainder
    }
}

/// Records that are held in memory.
pub type MemoryRecords = Vec<Record>;

impl BatchRecords for MemoryRecords {

}

/// Bytes of the base offset and of the batch length.
pub const BATCH_PREAMBLE_SIZE: usize = 8 + 4;

/// Bytes of the header.
pub const BATCH_HEADER_SIZE: usize = 4 + 1 + 4 + 2 + 4 + 8 + 8 + 8 + 2 + 4;

/// Bytes in front of the records.
pub const BATCH_FILE_HEADER_SIZE: usize = BATCH_PREAMBLE_SIZE + BATCH_HEADER_SIZE;

/// What is kept about a batch beside its records.
#[derive(Debug)]
pub struct BatchHeader {
    pub partition_leader_epoch: i32,
    pub magic: i8,
    pub crc: u32,
    pub attributes: i16,
    /// Indicates the count from the beginning of the batch to the end.
    ///
    /// Adding this to the base offset gives the offset of the last record in this batch.
    pub last_offset_delta: i32,
    pub first_timestamp: i64,
    pub max_time_stamp: i64,
    pub producer_id: i64,
    pub producer_epoch: i16,
    pub first_sequence: i32,
}

impl DeepView for BatchHeader {
    type V = BatchHeader;

    open spec fn deep_view(&self) -> BatchHeader {
        *self
    }
}

impl Default for BatchHeader {
    fn default() -> (header: BatchHeader)
        ensures
            header == BatchHeader::blank(),
    {
        BatchHeader {
            partition_leader_epoch: -1,
            magic: 2,
            crc: 0,
            attributes: 0,
            last_offset_delta: -1,
            first_timestamp: 0,
            max_time_stamp: 0,
            producer_id: -1,
            producer_epoch: -1,
            first_sequence: -1,
        }
    }
}

/// The part of the header that the checksum covers.
pub open spec fn header_tail(v: BatchHeader, version: Version) -> Seq<u8> {
    i16::wire(v.attributes, version) + i32::wire(v.last_offset_delta, version) + i64::wire(
        v.first_timestamp,
        version,
    ) + i64::wire(v.max_time_stamp, version) + i64::wire(v.producer_id, version) + i16::wire(
        v.producer_epoch,
        version,
    ) + i32::wire(v.first_sequence, version)
}

/// The field of fixed size that starts `at` bytes into `src`; `start` where `src` is too short
/// to hold it.
pub open spec fn field<T: Decoder>(
    start: T::V,
    src: Seq<u8>,
    at: nat,
    version: Version,
) -> T::V {
    if at <= src.len() {
        T::read(start, src.skip(at as int), version).value
    } else {
        start
    }
}

/// How many bytes the whole header fields take that fit into `len` bytes.
pub open spec fn whole_header_fields(len: nat) -> nat {
    if len >= 45 {
        45
    } else if len >= 41 {
        41
    } else if len >= 39 {
        39
    } else if len >= 31 {
        31
    } else if len >= 23 {
        23
    } else if len >= 15 {
        15
    } else if len >= 11 {
        11
    } else if len >= 9 {
        9
    } else if len >= 5 {
        5
    } else if len >= 4 {
        4
    } else {
        0
    }
}

proof fn lemma_header_tail_len(v: BatchHeader, version: Version)
    ensures
        header_tail(v, version).len() == 36,
{
    lemma_be_bytes_len(twos_complement(v.attributes as int, 2), 2);
    lemma_be_bytes_len(twos_complement(v.last_offset_delta as int, 4), 4);
    lemma_be_bytes_len(twos_complement(v.first_timestamp as int, 8), 8);
    lemma_be_bytes_len(twos_complement(v.max_time_stamp as int, 8), 8);
    lemma_be_bytes_len(twos_complement(v.producer_id as int, 8), 8);
    lemma_be_bytes_len(twos_complement(v.producer_epoch as int, 2), 2);
    lemma_be_bytes_len(twos_complement(v.first_sequence as int, 4), 4);
}

/// The header takes `BATCH_HEADER_SIZE` bytes, whatever it holds.
pub proof fn header_has_fixed_size(v: BatchHeader, version: Version)
    ensures
        BatchHeader::wire(v, version).len() == BATCH_HEADER_SIZE,
{
    lemma_header_tail_len(v, version);
    lemma_be_bytes_len(twos_complement(v.partition_leader_epoch as int, 4), 4);
    lemma_be_bytes_len(twos_complement(v.magic as int, 1), 1);
    lemma_be_bytes_len(v.crc as nat, 4);
}

impl BatchHeader {
    /// Appends the part of the header that the checksum covers.
    fn encode_tail(&self, dest: &mut Vec<u8>, version: Version) -> (result: Result<(), Error>)
        ensures
            result == Ok::<(), Error>(()),
            final(dest)@ == old(dest)@ + header_tail(*self, version),
    {
        self.attributes.encode(dest, version)?;
        self.last_offset_delta.encode(dest, version)?;
        self.first_timestamp.encode(dest, version)?;
        self.max_time_stamp.encode(dest, version)?;
        self.producer_id.encode(dest, version)?;
        self.producer_epoch.encode(dest, version)?;
        self.first_sequence.encode(dest, version)?;
        assert(dest@ =~= old(dest)@ + header_tail(*self, version));
        Ok(())
    }
}

impl Encoder for BatchHeader {
    /// The fields in order.
    open spec fn wire(v: BatchHeader, version: Version) -> Seq<u8> {
        i32::wire(v.partition_leader_epoch, version) + i8::wire(v.magic, version) + u32::wire(
            v.crc,
            version,
        ) + header_tail(v, version)
    }

    open spec fn encoded(v: BatchHeader, version: Version) -> Encoded {
        Encoded { bytes: Self::wire(v, version), outcome: Ok(()) }
    }

    open spec fn size(v: BatchHeader, version: Version) -> usize {
        BATCH_HEADER_SIZE
    }

    fn write_size(&self, version: Version) -> (size: usize) {
        BATCH_HEADER_SIZE
    }

    fn encode(&self, dest: &mut Vec<u8>, version: Version) -> (result: Result<(), Error>) {
        self.partition_leader_epoch.encode(dest, version)?;
        self.magic.encode(dest, version)?;
        self.crc.encode(dest, version)?;
        self.encode_tail(dest, version)?;
        assert(dest@ =~= old(dest)@ + Self::wire(*self, version));
        Ok(())
    }
}

impl Decoder for BatchHeader {
    open spec fn blank() -> BatchHeader {
        BatchHeader {
            partition_leader_epoch: -1 as i32,
            magic: 2,
            crc: 0,
            attributes: 0,
            last_offset_delta: -1 as i32,
            first_timestamp: 0,
            max_time_stamp: 0,
            producer_id: -1 as i64,
            producer_epoch: -1 as i16,
            first_sequence: -1 as i32,
        }
    }

    /// A source that is too short gives the fields that it holds whole; the others stay.
    open spec fn read(start: BatchHeader, src: Seq<u8>, version: Version) -> Decoded<BatchHeader> {
        Decoded {
            value: BatchHeader {
                partition_leader_epoch: field::<i32>(
                    start.partition_leader_epoch,
                    src,
                    0,
                    version,
                ),
                magic: field::<i8>(start.magic, src, 4, version),
                crc: field::<u32>(start.crc, src, 5, version),
                attributes: field::<i16>(start.attributes, src, 9, version),
                last_offset_delta: field::<i32>(start.last_offset_delta, src, 11, version),
                first_timestamp: field::<i64>(start.first_timestamp, src, 15, version),
                max_time_stamp: field::<i64>(start.max_time_stamp, src, 23, version),
                producer_id: field::<i64>(start.producer_id, src, 31, version),
                producer_epoch: field::<i16>(start.producer_epoch, src, 39, version),
                first_sequence: field::<i32>(start.first_sequence, src, 41, version),
            },
            rest: src.skip(whole_header_fields(src.len()) as int),
            outcome: if src.len() >= BATCH_HEADER_SIZE {
                Ok(())
            } else {
                Err(Error::UnexpectedEof)
            },
        }
    }

    proof fn default_is_blank(value: BatchHeader) {
        assert(call_ensures(BatchHeader::default, (), value));
    }

    fn decode(&mut self, src: &mut &[u8], version: Version) -> (result: Result<(), Error>) {
        let ghost all = (*src)@;
        assert(all.skip(0) =~= all);
        let result = self.partition_leader_epoch.decode(src, version);
        if result.is_err() {
            return result;
        }
        let result = self.magic.decode(src, version);
        if result.is_err() {
            return result;
        }
        assert(all.skip(4).skip(1) =~= all.skip(5));
        let result = self.crc.decode(src, version);
        if result.is_err() {
            return result;
        }
        assert(all.skip(5).skip(4) =~= all.skip(9));
        let result = self.attributes.decode(src, version);
        if result.is_err() {
            return result;
        }
        assert(all.skip(9).skip(2) =~= all.skip(11));
        let result = self.last_offset_delta.decode(src, version);
        if result.is_err() {
            return result;
        }
        assert(all.skip(11).skip(4) =~= all.skip(15));
        let result = self.first_timestamp.decode(src, version);
        if result.is_err() {
            return result;
        }
        assert(all.skip(15).skip(8) =~= all.skip(23));
        let result = self.max_time_stamp.decode(src, version);
        if result.is_err() {
            return result;
        }
        assert(all.skip(23).skip(8) =~= all.skip(31));
        let result = self.producer_id.decode(src, version);
        if result.is_err() {
            return result;
        }
        assert(all.skip(31).skip(8) =~= all.skip(39));
        let result = self.producer_epoch.decode(src, version);
        if result.is_err() {
            return result;
        }
        assert(all.skip(39).skip(2) =~= all.skip(41));
        let result = self.first_sequence.decode(src, version);
        assert(result is Ok ==> all.skip(41).skip(4) =~= all.skip(45));
        result
    }
}

impl Lossless for BatchHeader {
    open spec fn representable(v: BatchHeader) -> bool {
        true
    }

    proof fn reads_back(v: BatchHeader, rest: Seq<u8>, version: Version) {
        header_has_fixed_size(v, version);
        lemma_header_tail_len(v, version);
        let src = Self::wire(v, version) + rest;
        lemma_be_bytes_len(twos_complement(v.first_sequence as int, 4), 4);
        lemma_be_bytes_len(twos_complement(v.producer_epoch as int, 2), 2);
        lemma_be_bytes_len(twos_complement(v.producer_id as int, 8), 8);
        lemma_be_bytes_len(twos_complement(v.max_time_stamp as int, 8), 8);
        lemma_be_bytes_len(twos_complement(v.first_timestamp as int, 8), 8);
        lemma_be_bytes_len(twos_complement(v.last_offset_delta as int, 4), 4);
        lemma_be_bytes_len(twos_complement(v.attributes as int, 2), 2);
        lemma_be_bytes_len(v.crc as nat, 4);
        lemma_be_bytes_len(twos_complement(v.magic as int, 1), 1);
        lemma_be_bytes_len(twos_complement(v.partition_leader_epoch as int, 4), 4);
        let at_41 = i32::wire(v.first_sequence, version) + rest;
        let at_39 = i16::wire(v.producer_epoch, version) + at_41;
        let at_31 = i64::wire(v.producer_id, version) + at_39;
        let at_23 = i64::wire(v.max_time_stamp, version) + at_31;
        let at_15 = i64::wire(v.first_timestamp, version) + at_23;
        let at_11 = i32::wire(v.last_offset_delta, version) + at_15;
        let at_9 = i16::wire(v.attributes, version) + at_11;
        let at_5 = u32::wire(v.crc, version) + at_9;
        let at_4 = i8::wire(v.magic, version) + at_5;
        let at_0 = i32::wire(v.partition_leader_epoch, version) + at_4;
        assert(src.skip(0) =~= at_0);
        i32::reads_back(v.partition_leader_epoch, at_4, version);
        assert(src.skip(4) =~= at_4);
        i8::reads_back(v.magic, at_5, version);
        assert(src.skip(5) =~= at_5);
        u32::reads_back(v.crc, at_9, version);
        assert(src.skip(9) =~= at_9);
        i16::reads_back(v.attributes, at_11, version);
        assert(src.skip(11) =~= at_11);
        i32::reads_back(v.last_offset_delta, at_15, version);
        assert(src.skip(15) =~= at_15);
        i64::reads_back(v.first_timestamp, at_23, version);
        assert(src.skip(23) =~= at_23);
        i64::reads_back(v.max_time_stamp, at_31, version);
        assert(src.skip(31) =~= at_31);
        i64::reads_back(v.producer_id, at_39, version);
        assert(src.skip(39) =~= at_39);
        i16::reads_back(v.producer_epoch, at_41, version);
        assert(src.skip(41) =~= at_41);
        i32::reads_back(v.first_sequence, rest, version);
        assert(src.skip(45) =~= rest);
    }

    proof fn cut_short_is_refused(v: BatchHeader, len: nat, version: Version) {
        header_has_fixed_size(v, version);
    }
}

/// Records with the header that describes them.
#[derive(Debug)]
pub struct Batch<R = MemoryRecords> {
    pub base_offset: Offset,
    /// Bytes of the header and of the records, as found in the source of the batch.
    pub batch_len: i32,
    pub header: BatchHeader,
    records: R,
}

/// What a batch holds, with its records seen as `T`.
#[verifier::ext_equal]
pub struct BatchView<T> {
    pub base_offset: Offset,
    pub batch_len: i32,
    pub header: BatchHeader,
    pub records: T,
}

impl<R> View for Batch<R> {
    type V = BatchView<R>;

    closed spec fn view(&self) -> BatchView<R> {
        BatchView {
            base_offset: self.base_offset,
            batch_len: self.batch_len,
            header: self.header,
            records: self.records,
        }
    }
}

/// The view of a batch shows its fields as they are.
proof fn view_shows_the_fields<R>(batch: Batch<R>)
    ensures
        batch@.base_offset == batch.base_offset,
        batch@.batch_len == batch.batch_len,
        batch@.header == batch.header,
        batch@.records == batch.records,
{
}

impl<R: DeepView> DeepView for Batch<R> {
    type V = BatchView<R::V>;

    open spec fn deep_view(&self) -> BatchView<R::V> {
        BatchView {
            base_offset: self@.base_offset,
            batch_len: self@.batch_len,
            header: self@.header,
            records: self@.records.deep_view(),
        }
    }
}

impl<R: Default> Default for Batch<R> {
    fn default() -> (batch: Batch<R>)
        ensures
            batch@.base_offset == 0,
            batch@.batch_len == 0,
            batch@.header == BatchHeader::blank(),
            call_ensures(R::default, (), batch@.records),
    {
        Batch {
            base_offset: 0,
            batch_len: 0,
            header: BatchHeader::default(),
            records: R::default(),
        }
    }
}

/// What reading all but the records comes to. A source that is too short gives the fields that
/// it holds whole; the others stay.
pub open spec fn read_file_header<T>(
    start: BatchView<T>,
    src: Seq<u8>,
    version: Version,
) -> Decoded<BatchView<T>> {
    let behind = src.skip(BATCH_PREAMBLE_SIZE as int);
    let header = BatchHeader::read(start.header, behind, version);
    Decoded {
        value: BatchView {
            base_offset: field::<i64>(start.base_offset, src, 0, version),
            batch_len: field::<i32>(start.batch_len, src, 8, version),
            header: if src.len() >= BATCH_PREAMBLE_SIZE {
                header.value
            } else {
                start.header
            },
            records: start.records,
        },
        rest: if src.len() >= BATCH_PREAMBLE_SIZE {
            header.rest
        } else if src.len() >= 8 {
            src.skip(8)
        } else {
            src
        },
        outcome: if src.len() >= BATCH_FILE_HEADER_SIZE {
            Ok(())
        } else {
            Err(Error::UnexpectedEof)
        },
    }
}

impl<R> Batch<R> {
    pub fn get_mut_header(&mut self) -> (header: &mut BatchHeader)
        ensures
            *header == old(self)@.header,
            final(self)@ == (BatchView { header: *final(header), ..old(self)@ }),
    {
        &mut self.header
    }

    pub fn get_header(&self) -> (header: &BatchHeader)
        ensures
            *header == self@.header,
    {
        &self.header
    }

    pub fn own_records(self) -> (records: R)
        ensures
            records == self@.records,
    {
        self.records
    }

    pub fn records(&self) -> (records: &R)
        ensures
            *records == self@.records,
    {
        &self.records
    }

    pub fn mut_records(&mut self) -> (records: &mut R)
        ensures
            *records == old(self)@.records,
            final(self)@ == (BatchView { records: *final(records), ..old(self)@ }),
    {
        &mut self.records
    }

    pub fn get_base_offset(&self) -> (offset: Offset)
        ensures
            offset == self@.base_offset,
    {
        self.base_offset
    }

    pub fn set_base_offset(&mut self, offset: Offset)
        ensures
            final(self)@ == (BatchView { base_offset: offset, ..old(self)@ }),
    {
        self.base_offset = offset;
    }

    pub fn base_offset(self, offset: Offset) -> (batch: Self)
        ensures
            batch@ == (BatchView { base_offset: offset, ..self@ }),
    {
        let mut batch = self;
        batch.base_offset = offset;
        batch
    }

    pub fn add_to_offset_delta(&mut self, delta: i32)
        requires
            i32::MIN <= old(self)@.header.last_offset_delta + delta <= i32::MAX,
        ensures
            final(self)@ == (BatchView {
                header: BatchHeader {
                    last_offset_delta: (old(self)@.header.last_offset_delta + delta) as i32,
                    ..old(self)@.header
                },
                ..old(self)@
            }),
    {
        self.header.last_offset_delta = self.header.last_offset_delta + delta;
    }

    pub fn set_offset_delta(&mut self, delta: i32)
        ensures
            final(self)@ == (BatchView {
                header: BatchHeader { last_offset_delta: delta, ..old(self)@.header },
                ..old(self)@
            }),
    {
        self.header.last_offset_delta = delta;
    }

    pub fn get_last_offset(&self) -> (offset: Offset)
        requires
            i64::MIN <= self@.base_offset + self@.header.last_offset_delta <= i64::MAX,
        ensures
            offset == self@.base_offset + self@.header.last_offset_delta,
    {
        self.get_base_offset() + self.last_offset_delta() as Offset
    }

    /// The last offset delta as a size: a negative delta wraps around. `last_offset_delta` is
    /// the better choice.
    pub fn get_last_offset_delta(&self) -> (size: Size)
        ensures
            self@.header.last_offset_delta >= 0 ==> size == self@.header.last_offset_delta,
            self@.header.last_offset_delta < 0 ==> size == self@.header.last_offset_delta
                + 0x1_0000_0000,
    {
        let delta: i32 = self.get_header().last_offset_delta;
        proof {
            assert(delta < 0 ==> (delta as u32) == delta + 0x1_0000_0000) by (bit_vector);
        }
        delta as Size
    }

    /// Last offset delta.
    pub fn last_offset_delta(&self) -> (delta: i32)
        ensures
            delta == self@.header.last_offset_delta,
    {
        self.get_header().last_offset_delta
    }

    /// Decodes a batch as it is stored in a file: all but the records.
    pub fn decode_from_file_buf(&mut self, src: &mut &[u8], version: Version) -> (result: Result<
        (),
        Error,
    >)
        ensures
            read_file_header(old(self)@, (*old(src))@, version) == (Decoded {
                value: final(self)@,
                rest: (*final(src))@,
                outcome: result,
            }),
    {
        let ghost all = (*src)@;
        assert(all.skip(0) =~= all);
        let result = self.base_offset.decode(src, version);
        if result.is_err() {
            return result;
        }
        let result = self.batch_len.decode(src, version);
        if result.is_err() {
            return result;
        }
        assert(all.skip(8).skip(4) =~= all.skip(12));
        self.header.decode(src, version)
    }
}

impl<R> Batch<R> where R: Encoder {
    /// The length of the header and of the records, cut down to 32 bits.
    fn computed_batch_len(&self, version: Version) -> (len: i32)
        ensures
            len == batch_len_of::<R>(self.deep_view().records, version),
    {
        let size: usize = self.records.write_size(version);
        proof {
            lemma_low_i32_of_wrapped(BATCH_HEADER_SIZE as nat + size as nat);
        }
        truncate_i32(add_sizes(BATCH_HEADER_SIZE, size))
    }

    /// Checks that the batch length that was decoded is that of the header and the records.
    pub fn validate_decoding(&self) -> (valid: bool)
        ensures
            valid == (self@.batch_len == batch_len_of::<R>(self.deep_view().records, 0)),
    {
        self.batch_len == self.computed_batch_len(0)
    }
}

/// The length that a batch with these records states: the bytes of the header and those that the
/// records are said to take, cut down to 32 bits.
pub open spec fn batch_len_of<R: Encoder>(records: R::V, version: Version) -> i32 {
    low_i32(BATCH_HEADER_SIZE as nat + R::size(records, version) as nat)
}

/// The part of a batch that the checksum covers.
pub open spec fn checked_part<R: Encoder>(v: BatchView<R::V>, version: Version) -> Seq<u8> {
    header_tail(v.header, version) + R::wire(v.records, version)
}

/// What stands in front of the checksum: the base offset, the length, the leader epoch and the
/// magic number. The length that the batch holds itself is not used.
pub open spec fn front<R: Encoder>(v: BatchView<R::V>, version: Version) -> Seq<u8> {
    i64::wire(v.base_offset, version) + i32::wire(
        batch_len_of::<R>(v.records, version),
        version,
    ) + i32::wire(v.header.partition_leader_epoch, version) + i8::wire(v.header.magic, version)
}

/// A checksum with the part that it covers.
pub open spec fn with_checksum(crc: u32, checked: Seq<u8>, version: Version) -> Seq<u8> {
    u32::wire(crc, version) + checked
}

/// Appends a checksum and the part that it covers to `dest`.
pub fn encode_with_checksum(
    crc: u32,
    checked: &[u8],
    dest: &mut Vec<u8>,
    version: Version,
) -> (result: Result<(), Error>)
    ensures
        result == Ok::<(), Error>(()),
        final(dest)@ == old(dest)@ + with_checksum(crc, checked@, version),
{
    crc.encode(dest, version)?;
    dest.extend_from_slice(checked);
    assert(dest@ =~= old(dest)@ + with_checksum(crc, checked@, version));
    Ok(())
}

/// Cutting a length down to a `usize` first does not change its low 32 bits.
pub proof fn lemma_low_i32_of_wrapped(len: nat)
    ensures
        low_i32(wrapped(len) as nat) == low_i32(len),
{
    lemma_wrapped_is_mod(len);
    if usize::MAX == 0xffff_ffff {
        assert((len % 0x1_0000_0000) % 0x1_0000_0000 == len % 0x1_0000_0000);
    } else {
        assert(usize::MAX == 0xffff_ffff_ffff_ffff);
        assert((len % 0x1_0000_0000_0000_0000) % 0x1_0000_0000 == len % 0x1_0000_0000);
    }
}

impl<R> Batch<R> where R: BatchRecords {
    /// Appends what stands in front of the checksum.
    pub fn encode_front(&self, dest: &mut Vec<u8>, version: Version) -> (result: Result<(), Error>)
        ensures
            result == Ok::<(), Error>(()),
            final(dest)@ == old(dest)@ + front::<R>(self.deep_view(), version),
    {
        self.base_offset.encode(dest, version)?;
        let batch_len: i32 = self.computed_batch_len(version);
        batch_len.encode(dest, version)?;
        self.header.partition_leader_epoch.encode(dest, version)?;
        self.header.magic.encode(dest, version)?;
        assert(dest@ =~= old(dest)@ + front::<R>(self.deep_view(), version));
        Ok(())
    }

    /// Appends the part of the batch that the checksum covers. It fails where the records do.
    pub fn encode_checked_part(&self, dest: &mut Vec<u8>, version: Version) -> (result: Result<
        (),
        Error,
    >)
        ensures
            result == R::encoded(self.deep_view().records, version).outcome,
            final(dest)@ == old(dest)@ + header_tail(self@.header, version) + R::encoded(
                self.deep_view().records,
                version,
            ).bytes,
            result is Ok ==> final(dest)@ == old(dest)@ + checked_part::<R>(
                self.deep_view(),
                version,
            ),
    {
        self.header.encode_tail(dest, version)?;
        let result = self.records.encode(dest, version);
        assert(result is Ok ==> dest@ =~= old(dest)@ + checked_part::<R>(
            self.deep_view(),
            version,
        ));
        result
    }
}

/// The base offset, the length, the leader epoch and the magic number take 17 bytes.
pub proof fn front_has_fixed_size<R: Encoder>(v: BatchView<R::V>, version: Version)
    ensures
        front::<R>(v, version).len() == 17,
{
    lemma_be_bytes_len(twos_complement(v.base_offset as int, 8), 8);
    lemma_be_bytes_len(twos_complement(batch_len_of::<R>(v.records, version) as int, 4), 4);
    lemma_be_bytes_len(twos_complement(v.header.partition_leader_epoch as int, 4), 4);
    lemma_be_bytes_len(twos_complement(v.header.magic as int, 1), 1);
}

/// A batch takes `BATCH_FILE_HEADER_SIZE` bytes and those of its records.
pub proof fn batch_wire_len<R: BatchRecords>(v: BatchView<R::V>, version: Version)
    ensures
        Batch::<R>::wire(v, version).len() == BATCH_FILE_HEADER_SIZE + R::wire(
            v.records,
            version,
        ).len(),
{
    let checked = checked_part::<R>(v, version);
    lemma_header_tail_len(v.header, version);
    front_has_fixed_size::<R>(v, version);
    lemma_be_bytes_len(crc32c_of(checked) as nat, 4);
}

impl<R> Encoder for Batch<R> where R: BatchRecords {
    /// The front, then the checksum with the part that it covers. The checksum that the batch
    /// holds itself is not used.
    open spec fn wire(v: BatchView<R::V>, version: Version) -> Seq<u8> {
        let checked = checked_part::<R>(v, version);
        front::<R>(v, version) + with_checksum(crc32c_of(checked), checked, version)
    }

    /// Records that cannot be written end the writing behind the front.
    open spec fn encoded(v: BatchView<R::V>, version: Version) -> Encoded {
        let records = R::encoded(v.records, version);
        if records.outcome is Err {
            Encoded { bytes: front::<R>(v, version), outcome: records.outcome }
        } else {
            Encoded { bytes: Self::wire(v, version), outcome: Ok(()) }
        }
    }

    open spec fn size(v: BatchView<R::V>, version: Version) -> usize {
        wrapped(BATCH_FILE_HEADER_SIZE as nat + R::size(v.records, version) as nat)
    }

    fn write_size(&self, version: Version) -> (size: usize) {
        add_sizes(BATCH_PREAMBLE_SIZE + BATCH_HEADER_SIZE, self.records.write_size(version))
    }

    fn encode(&self, dest: &mut Vec<u8>, version: Version) -> (result: Result<(), Error>) {
        self.encode_front(dest, version)?;
        let mut out: Vec<u8> = Vec::new();
        let result = self.encode_checked_part(&mut out, version);
        if result.is_err() {
            return result;
        }
        assert(out@ =~= checked_part::<R>(self.deep_view(), version));
        let crc: u32 = crc32c::crc32c(out.as_slice());
        encode_with_checksum(crc, out.as_slice(), dest, version)?;
        assert(dest@ =~= old(dest)@ + Self::wire(self.deep_view(), version));
        Ok(())
    }
}

impl<R> Decoder for Batch<R> where R: BatchRecords {
    open spec fn blank() -> BatchView<R::V> {
        BatchView {
            base_offset: 0,
            batch_len: 0,
            header: BatchHeader::blank(),
            records: R::blank(),
        }
    }

    /// The records are read behind the rest of the batch.
    open spec fn read(start: BatchView<R::V>, src: Seq<u8>, version: Version) -> Decoded<
        BatchView<R::V>,
    > {
        let front = read_file_header(start, src, version);
        let records = R::read(start.records, front.rest, version);
        if front.outcome is Err {
            front
        } else {
            Decoded {
                value: BatchView { records: records.value, ..front.value },
                rest: records.rest,
                outcome: records.outcome,
            }
        }
    }

    proof fn default_is_blank(value: Batch<R>) {
        assert(call_ensures(Batch::<R>::default, (), value));
        R::default_is_blank(value@.records);
    }

    fn decode(&mut self, src: &mut &[u8], version: Version) -> (result: Result<(), Error>) {
        let result = self.decode_from_file_buf(src, version);
        if result.is_err() {
            return result;
        }
        self.records.decode(src, version)
    }
}

/// Records whose offset deltas count up from zero.
pub open spec fn numbered(records: Seq<RecordView>) -> Seq<RecordView> {
    Seq::new(
        records.len(),
        |i: int|
            RecordView {
                preamble: RecordHeader { offset_delta: i as i64, ..records[i].preamble },
                ..records[i]
            },
    )
}

/// The batch with these records, numbered, and with the last offset delta that belongs to them.
pub open spec fn with_numbered(
    v: BatchView<Seq<RecordView>>,
    records: Seq<RecordView>,
) -> BatchView<Seq<RecordView>> {
    BatchView {
        header: BatchHeader {
            last_offset_delta: (low_i32(records.len()) - 1) as i32,
            ..v.header
        },
        records: numbered(records),
        ..v
    }
}

/// The batch that is made of these records.
pub open spec fn made_of(records: Seq<RecordView>) -> BatchView<Seq<RecordView>> {
    let len = low_i32(records.len());
    BatchView {
        base_offset: 0,
        batch_len: 0,
        header: BatchHeader {
            last_offset_delta: if len > 0 {
                (len - 1) as i32
            } else {
                len
            },
            ..BatchHeader::blank()
        },
        records: numbered(records),
    }
}

/// Numbers the records in their order, from zero.
fn number_records(records: &mut MemoryRecords)
    ensures
        final(records)@.len() == old(records)@.len(),
        final(records).deep_view() == numbered(old(records).deep_view()),
{
    let mut i: usize = 0;
    while i < records.len()
        invariant
            i <= records@.len() == old(records)@.len(),
            forall|j: int|
                0 <= j < i ==> (#[trigger] records@[j]).deep_view() == numbered(
                    old(records).deep_view(),
                )[j],
            forall|j: int| i <= j < records@.len() ==> #[trigger] records@[j] == old(records)@[j],
        decreases records@.len() - i,
    {
        records[i].preamble.set_offset_delta(i as Offset);
        i = i + 1;
    }
    assert(records.deep_view() =~= numbered(old(records).deep_view()));
}

impl Batch {
    /// Creates a new empty batch.
    pub fn new() -> (batch: Self)
        ensures
            batch.deep_view() == Batch::<MemoryRecords>::blank(),
    {
        let batch = Self::default();
        proof {
            MemoryRecords::default_is_blank(batch@.records);
        }
        batch
    }

    /// Adds a record and sets the offset deltas right.
    pub fn add_record(&mut self, record: Record)
        requires
            low_i32(old(self).deep_view().records.len() + 1) > i32::MIN,
        ensures
            final(self).deep_view() == with_numbered(
                old(self).deep_view(),
                old(self).deep_view().records.push(record.deep_view()),
            ),
    {
        let mut records: Vec<Record> = Vec::new();
        records.push(record);
        self.add_records(&mut records);
        assert(old(self).deep_view().records + seq![record.deep_view()]
            =~= old(self).deep_view().records.push(record.deep_view()));
    }

    /// Moves the records to the end of the batch and sets the offset deltas right.
    pub fn add_records(&mut self, records: &mut Vec<Record>)
        requires
            low_i32(old(self).deep_view().records.len() + old(records)@.len()) > i32::MIN,
        ensures
            final(records)@ == Seq::<Record>::empty(),
            final(self).deep_view() == with_numbered(
                old(self).deep_view(),
                old(self).deep_view().records + old(records).deep_view(),
            ),
    {
        self.records.append(records);
        assert(self.deep_view().records =~= old(self).deep_view().records + old(
            records,
        ).deep_view());
        self.update_offset_deltas();
    }

    /// Adjusts the offset deltas in the records and in the header.
    pub fn update_offset_deltas(&mut self)
        requires
            low_i32(old(self).deep_view().records.len()) > i32::MIN,
        ensures
            final(self).deep_view() == with_numbered(
                old(self).deep_view(),
                old(self).deep_view().records,
            ),
    {
        assert(self.records@.len() == self.deep_view().records.len());
        number_records(&mut self.records);
        self.header.last_offset_delta = truncate_i32(self.records.len()) - 1;
    }

    /// The base offset and the number of records: the offset behind the last record.
    pub fn computed_last_offset(&self) -> (offset: Offset)
        requires
            self.deep_view().records.len() <= i64::MAX,
            self@.base_offset + self.deep_view().records.len() <= i64::MAX,
        ensures
            offset == self@.base_offset + self.deep_view().records.len(),
    {
        self.get_base_offset() + self.records.len() as Offset
    }

    /// The batch that is made of these records.
    pub fn from_records(records: MemoryRecords) -> (batch: Self)
        ensures
            batch.deep_view() == made_of(records.deep_view()),
    {
        assert(records@.len() == records.deep_view().len());
        let mut records = records;
        let mut batch = Self::default();
        number_records(&mut records);
        let len: i32 = truncate_i32(records.len());
        batch.records = records;
        batch.header.last_offset_delta = if len > 0 { len - 1 } else { len };
        batch
    }
}

impl<T: Into<MemoryRecords>> From<T> for Batch {
    fn from(records: T) -> (batch: Self)
        ensures
            exists|all: MemoryRecords|
                #![trigger made_of(all.deep_view())]
                call_ensures(T::into, (records,), all) && batch.deep_view() == made_of(
                    all.deep_view(),
                ),
    {
        let all: MemoryRecords = records.into();
        Batch::from_records(all)
    }
}

impl<T: Into<MemoryRecords>> vstd::std_specs::convert::FromSpecImpl<T> for Batch {
    open spec fn obeys_from_spec() -> bool {
        false
    }

    open spec fn from_spec(records: T) -> Batch {
        arbitrary()
    }
}

} // verus!
