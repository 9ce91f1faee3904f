use vstd::arithmetic::div_mod::{lemma_mod_multiples_vanish, lemma_small_mod};
use vstd::prelude::*;

use crate::batch::{
    batch_len_of, batch_wire_len, checked_part, encode_with_checksum, field, front,
    front_has_fixed_size, header_has_fixed_size, header_tail, lemma_low_i32_of_wrapped, made_of, numbered,
    read_file_header, with_numbered, Batch, BatchHeader, BatchRecords, BatchView, MemoryRecords,
    BATCH_FILE_HEADER_SIZE, BATCH_HEADER_SIZE, BATCH_PREAMBLE_SIZE,
};
use crate::checksum::crc32c_of;
use crate::codec::{
    is_sized, lemma_wrapped_is_mod, lemma_wrapped_sum, Decoded, Decoder, Encoded, Encoder, Error,
    Lossless, Version,
};
use crate::collections::{all_are_sized, low_i32, size_all};
use crate::ints::{
    i16_at, i16_is_read, i32_at, i32_is_read, i64_at, i64_is_read, i8_at, i8_is_read,
    lemma_be_bytes_len, number_4, number_8, twos_complement, u32_at, u32_is_read,
    u32_is_written,
};
use crate::record::{
    behind_attributes, record_body, record_comes_back, record_is_sized, Record, RecordView,
};
use crate::{Offset, Size};

verus! {

/// The batch that comes back from the wire form of `v`: the length and the checksum are those
/// that were computed when it was written.
pub open spec fn as_written<R: Encoder>(v: BatchView<R::V>, version: Version) -> BatchView<R::V> {
    BatchView {
        batch_len: batch_len_of::<R>(v.records, version),
        header: BatchHeader { crc: crc32c_of(checked_part::<R>(v, version)), ..v.header },
        ..v
    }
}

proof fn lemma_front<R: BatchRecords>(v: BatchView<R::V>, version: Version)
    ensures
        Batch::<R>::wire(v, version) == i64::wire(v.base_offset, version) + (i32::wire(
            batch_len_of::<R>(v.records, version),
            version,
        ) + (BatchHeader::wire(as_written::<R>(v, version).header, version) + R::wire(
            v.records,
            version,
        ))),
        i64::wire(v.base_offset, version).len() == 8,
        i32::wire(batch_len_of::<R>(v.records, version), version).len() == 4,
{
    let header = as_written::<R>(v, version).header;
    assert(header_tail(header, version) == header_tail(v.header, version));
    lemma_be_bytes_len(twos_complement(v.base_offset as int, 8), 8);
    lemma_be_bytes_len(twos_complement(batch_len_of::<R>(v.records, version) as int, 4), 4);
    assert(Batch::<R>::wire(v, version) =~= i64::wire(v.base_offset, version) + (i32::wire(
        batch_len_of::<R>(v.records, version),
        version,
    ) + (BatchHeader::wire(header, version) + R::wire(v.records, version))));
}

/// Reading all but the records of a batch that was written stops at the records and gives the
/// rest of the batch as it was written.
pub proof fn file_header_reads_back<R: BatchRecords, T>(
    start: BatchView<T>,
    v: BatchView<R::V>,
    rest: Seq<u8>,
    version: Version,
)
    ensures
        ({
            let written = as_written::<R>(v, version);
            read_file_header(start, Batch::<R>::wire(v, version) + rest, version) == (Decoded {
                value: BatchView {
                    base_offset: written.base_offset,
                    batch_len: written.batch_len,
                    header: written.header,
                    records: start.records,
                },
                rest: R::wire(v.records, version) + rest,
                outcome: Ok(()),
            })
        }),
{
    let src = Batch::<R>::wire(v, version) + rest;
    let len = batch_len_of::<R>(v.records, version);
    let header = as_written::<R>(v, version).header;
    let at_57 = R::wire(v.records, version) + rest;
    let at_12 = BatchHeader::wire(header, version) + at_57;
    let at_8 = i32::wire(len, version) + at_12;
    lemma_front::<R>(v, version);
    header_has_fixed_size(header, version);
    assert(src =~= i64::wire(v.base_offset, version) + at_8);
    assert(src.skip(0) =~= src);
    assert(src.skip(8) =~= at_8);
    assert(src.skip(12) =~= at_12);
    i64::reads_back(v.base_offset, at_8, version);
    i32::reads_back(len, at_12, version);
    BatchHeader::reads_back(header, at_57, version);
    lemma_header_start(start.header, at_12, version);
}

/// What a header held before does not matter once it is read whole.
proof fn lemma_header_start(start: BatchHeader, src: Seq<u8>, version: Version)
    requires
        BatchHeader::read(BatchHeader::blank(), src, version).outcome is Ok,
    ensures
        BatchHeader::read(start, src, version) == BatchHeader::read(
            BatchHeader::blank(),
            src,
            version,
        ),
{
}

/// A batch comes back from its wire form, whatever follows it, with the length and the checksum
/// that were computed when it was written; what follows is left.
pub proof fn batch_reads_back<R: BatchRecords + Lossless>(
    v: BatchView<R::V>,
    rest: Seq<u8>,
    version: Version,
)
    requires
        R::representable(v.records),
    ensures
        Batch::<R>::read(Batch::<R>::blank(), Batch::<R>::wire(v, version) + rest, version) == (
        Decoded { value: as_written::<R>(v, version), rest, outcome: Ok(()) }),
{
    file_header_reads_back::<R, R::V>(Batch::<R>::blank(), v, rest, version);
    R::reads_back(v.records, rest, version);
}

/// A batch that was written and cut short after `len` bytes is never taken for a batch.
pub proof fn cut_short_batch_is_refused<R: BatchRecords + Lossless>(
    v: BatchView<R::V>,
    len: nat,
    version: Version,
)
    requires
        R::representable(v.records),
        len < Batch::<R>::wire(v, version).len(),
    ensures
        Batch::<R>::read(
            Batch::<R>::blank(),
            Batch::<R>::wire(v, version).take(len as int),
            version,
        ).outcome == Err::<(), Error>(Error::UnexpectedEof),
{
    let src = Batch::<R>::wire(v, version).take(len as int);
    batch_wire_len::<R>(v, version);
    if len >= BATCH_FILE_HEADER_SIZE {
        let left = R::wire(v.records, version).take(len - BATCH_FILE_HEADER_SIZE);
        lemma_front::<R>(v, version);
        header_has_fixed_size(as_written::<R>(v, version).header, version);
        assert(src.skip(12).skip(45) =~= left);
        R::cut_short_is_refused(v.records, (len - BATCH_FILE_HEADER_SIZE) as nat, version);
    }
}

/// The checksum stands behind the magic number and is that of all bytes behind it.
pub proof fn checksum_covers_what_follows<R: BatchRecords>(v: BatchView<R::V>, version: Version)
    ensures
        ({
            let bytes = Batch::<R>::wire(v, version);
            &&& bytes.len() >= BATCH_FILE_HEADER_SIZE
            &&& field::<u32>(0, bytes, 17, version) == crc32c_of(bytes.skip(21))
        }),
{
    let bytes = Batch::<R>::wire(v, version);
    let checked = checked_part::<R>(v, version);
    let crc = crc32c_of(checked);
    batch_wire_len::<R>(v, version);
    lemma_front::<R>(v, version);
    lemma_be_bytes_len(twos_complement(v.header.partition_leader_epoch as int, 4), 4);
    lemma_be_bytes_len(twos_complement(v.header.magic as int, 1), 1);
    lemma_be_bytes_len(crc as nat, 4);
    assert(bytes.skip(17) =~= u32::wire(crc, version) + checked);
    assert(bytes.skip(21) =~= checked);
    u32::reads_back(crc, checked, version);
}

/// The length stands behind the base offset and, where the records take the number of bytes that
/// they are said to take, is that of all bytes behind it, cut down to 32 bits.
pub proof fn length_counts_what_follows<R: BatchRecords>(v: BatchView<R::V>, version: Version)
    requires
        is_sized::<R>(v.records, version),
    ensures
        ({
            let bytes = Batch::<R>::wire(v, version);
            &&& bytes.len() >= BATCH_FILE_HEADER_SIZE
            &&& field::<i32>(0, bytes, 8, version) == low_i32(
                (bytes.len() - BATCH_PREAMBLE_SIZE) as nat,
            )
        }),
{
    let bytes = Batch::<R>::wire(v, version);
    let len = batch_len_of::<R>(v.records, version);
    let records = R::wire(v.records, version);
    batch_wire_len::<R>(v, version);
    lemma_front::<R>(v, version);
    let behind = BatchHeader::wire(as_written::<R>(v, version).header, version) + records;
    assert(bytes.skip(8) =~= i32::wire(len, version) + behind);
    i32::reads_back(len, behind, version);
    lemma_wrapped_sum(BATCH_HEADER_SIZE as nat, records.len());
    lemma_low_i32_of_wrapped(BATCH_HEADER_SIZE as nat + records.len());
    lemma_low_i32_of_wrapped(BATCH_HEADER_SIZE as nat + R::size(v.records, version) as nat);
}

/// A batch takes the number of bytes that it is said to take, where its records do.
pub proof fn batch_is_sized<R: BatchRecords>(v: BatchView<R::V>, version: Version)
    requires
        is_sized::<R>(v.records, version),
    ensures
        is_sized::<Batch<R>>(v, version),
{
    batch_wire_len::<R>(v, version);
    lemma_wrapped_sum(BATCH_FILE_HEADER_SIZE as nat, R::wire(v.records, version).len());
}

/// Records in memory take the number of bytes that they are said to take.
pub proof fn memory_records_are_sized(records: Seq<RecordView>, version: Version)
    requires
        forall|i: int|
            0 <= i < records.len() ==> record_body(#[trigger] records[i], version).len()
                <= usize::MAX,
    ensures
        is_sized::<MemoryRecords>(records, version),
{
    assert forall|i: int| 0 <= i < records.len() implies is_sized::<Record>(
        #[trigger] records[i],
        version,
    ) by {
        record_is_sized(records[i], version);
    }
    all_are_sized::<Record>(4, records, version);
    lemma_be_bytes_len(twos_complement(low_i32(records.len()) as int, 4), 4);
}

/// The length and the checksum that a batch holds have no part in its wire form.
pub proof fn held_length_and_checksum_are_not_written<R: BatchRecords>(
    v: BatchView<R::V>,
    batch_len: i32,
    crc: u32,
    version: Version,
)
    ensures
        Batch::<R>::wire(
            BatchView { batch_len, header: BatchHeader { crc, ..v.header }, ..v },
            version,
        ) == Batch::<R>::wire(v, version),
{
}

/// Writing a batch that was read back gives the same bytes.
pub proof fn rewriting_gives_the_same_bytes<R: BatchRecords>(v: BatchView<R::V>, version: Version)
    ensures
        Batch::<R>::wire(as_written::<R>(v, version), version) == Batch::<R>::wire(v, version),
{
}

proof fn lemma_size_all_versions(records: Seq<RecordView>, a: Version, b: Version)
    ensures
        size_all::<Record>(records, a) == size_all::<Record>(records, b),
    decreases records.len(),
{
    if records.len() > 0 {
        lemma_size_all_versions(records.skip(1), a, b);
        let first = records[0];
        assert(Record::size(first, a) == Record::size(first, b));
    }
}

/// A batch of records in memory is valid once it has been written and read back: the length
/// that was decoded is that of the header and the records.
pub proof fn read_back_batch_is_valid(
    v: BatchView<Seq<RecordView>>,
    rest: Seq<u8>,
    version: Version,
)
    requires
        MemoryRecords::representable(v.records),
    ensures
        ({
            let read = Batch::<MemoryRecords>::read(
                Batch::<MemoryRecords>::blank(),
                Batch::<MemoryRecords>::wire(v, version) + rest,
                version,
            );
            &&& read.outcome is Ok
            &&& read.value.batch_len == batch_len_of::<MemoryRecords>(read.value.records, 0)
        }),
{
    batch_reads_back::<MemoryRecords>(v, rest, version);
    lemma_size_all_versions(v.records, version, 0);
}

/// A source that is too short for the front of a batch is refused, and the records stay.
pub proof fn short_batch_is_refused<R: BatchRecords>(
    start: BatchView<R::V>,
    src: Seq<u8>,
    version: Version,
)
    requires
        src.len() < BATCH_FILE_HEADER_SIZE,
    ensures
        ({
            let read = Batch::<R>::read(start, src, version);
            &&& read.outcome == Err::<(), Error>(Error::UnexpectedEof)
            &&& read.value.records == start.records
        }),
{
}

/// In numbered records the one at place `i` has the offset delta `i`.
pub proof fn numbering_counts_up(records: Seq<RecordView>, i: int)
    requires
        0 <= i < records.len(),
        i <= i64::MAX,
    ensures
        numbered(records).len() == records.len(),
        numbered(records)[i].preamble.offset_delta == i,
{
}

/// In a batch with numbered records, as many as 32 bits can count, adding the last offset delta
/// to the base offset gives the offset of the last record, one below the offset behind the
/// batch.
pub proof fn last_offset_is_that_of_last_record(
    v: BatchView<Seq<RecordView>>,
    records: Seq<RecordView>,
)
    requires
        records.len() <= i32::MAX,
    ensures
        ({
            let batch = with_numbered(v, records);
            &&& records.len() > 0 ==> batch.base_offset + batch.header.last_offset_delta
                == batch.base_offset + batch.records.last().preamble.offset_delta
            &&& batch.base_offset + batch.header.last_offset_delta + 1 == batch.base_offset
                + batch.records.len()
        }),
{
}

/// Numbering changes nothing in a record but its offset delta.
pub proof fn numbering_keeps_contents(records: Seq<RecordView>, i: int)
    requires
        0 <= i < records.len(),
    ensures
        numbered(records)[i].key == records[i].key,
        numbered(records)[i].value == records[i].value,
        numbered(records)[i].headers == records[i].headers,
        numbered(records)[i].preamble.attributes == records[i].preamble.attributes,
        numbered(records)[i].preamble.timestamp_delta == records[i].preamble.timestamp_delta,
{
}

/// Adjusting the offset deltas twice does no more than adjusting them once.
pub proof fn numbering_is_idempotent(v: BatchView<Seq<RecordView>>)
    ensures
        ({
            let once = with_numbered(v, v.records);
            with_numbered(once, once.records) == once
        }),
{
    let once = with_numbered(v, v.records);
    assert(numbered(once.records) =~= once.records);
}

/// Adding records in two parts comes to the same as adding them all at once.
pub proof fn adding_in_parts(
    v: BatchView<Seq<RecordView>>,
    first: Seq<RecordView>,
    second: Seq<RecordView>,
)
    ensures
        ({
            let part = with_numbered(v, v.records + first);
            with_numbered(part, part.records + second) == with_numbered(
                v,
                v.records + (first + second),
            )
        }),
{
    let part = with_numbered(v, v.records + first);
    let whole = v.records + (first + second);
    assert(numbered(part.records + second) =~= numbered(whole));
}

/// A batch made of records is the empty batch with the records added. Without records it is
/// not: the batch that is made has 0 for its last offset delta, the empty batch has -1. The
/// number of records is taken as the headers take it, cut down to 32 bits.
pub proof fn made_batch_is_empty_batch_with_records_added(records: Seq<RecordView>)
    requires
        low_i32(records.len()) > 0,
    ensures
        ({
            let empty = Batch::<MemoryRecords>::blank();
            made_of(records) == with_numbered(empty, empty.records + records)
        }),
{
    let empty = Batch::<MemoryRecords>::blank();
    assert(empty.records + records =~= records);
}

/// Made of a vector of records, a batch holds these records, numbered.
pub proof fn batch_from_vector(records: MemoryRecords, batch: Batch)
    requires
        call_ensures(<Batch as From<MemoryRecords>>::from, (records,), batch),
    ensures
        batch.deep_view() == made_of(records.deep_view()),
{
}

/// Records that cannot be written leave nothing but the 17 bytes in front of the checksum; the
/// error is handed on.
pub proof fn failed_records_leave_the_front<R: BatchRecords>(
    v: BatchView<R::V>,
    error: Error,
    version: Version,
)
    requires
        R::encoded(v.records, version).outcome == Err::<(), Error>(error),
    ensures
        ({
            let encoded = Batch::<R>::encoded(v, version);
            &&& encoded.outcome == Err::<(), Error>(error)
            &&& encoded.bytes.len() == 17
            &&& encoded.bytes == Batch::<R>::wire(v, version).take(17)
        }),
{
    front_has_fixed_size::<R>(v, version);
    assert(front::<R>(v, version) =~= Batch::<R>::wire(v, version).take(17));
}

/// A batch of records in memory can always be written.
pub proof fn memory_batch_is_always_written(v: BatchView<Seq<RecordView>>, version: Version)
    ensures
        Batch::<MemoryRecords>::encoded(v, version) == (Encoded {
            bytes: Batch::<MemoryRecords>::wire(v, version),
            outcome: Ok(()),
        }),
{
}

/// The fields of a header stand in `bytes` from `at` on, each in its place.
pub open spec fn header_at(bytes: Seq<u8>, at: int, header: BatchHeader) -> bool {
    &&& i32_at(bytes, at, header.partition_leader_epoch)
    &&& i8_at(bytes, at + 4, header.magic)
    &&& u32_at(bytes, at + 5, header.crc)
    &&& i16_at(bytes, at + 9, header.attributes)
    &&& i32_at(bytes, at + 11, header.last_offset_delta)
    &&& i64_at(bytes, at + 15, header.first_timestamp)
    &&& i64_at(bytes, at + 23, header.max_time_stamp)
    &&& i64_at(bytes, at + 31, header.producer_id)
    &&& i16_at(bytes, at + 39, header.producer_epoch)
    &&& i32_at(bytes, at + 41, header.first_sequence)
}

/// `read` is what is left once the front of a batch has been read from `src`: every field that
/// `src` holds whole is that of its place in `src`, every other one is as it was at the start,
/// and all whole fields are consumed. The front is refused just where one of them is missing.
pub open spec fn front_is_read<T>(
    start: BatchView<T>,
    src: Seq<u8>,
    read: Decoded<BatchView<T>>,
) -> bool {
    let n = src.len();
    let v = read.value;
    &&& if n >= 8 {
        i64_at(src, 0, v.base_offset)
    } else {
        v.base_offset == start.base_offset
    }
    &&& if n >= 12 {
        i32_at(src, 8, v.batch_len)
    } else {
        v.batch_len == start.batch_len
    }
    &&& if n >= 16 {
        i32_at(src, 12, v.header.partition_leader_epoch)
    } else {
        v.header.partition_leader_epoch == start.header.partition_leader_epoch
    }
    &&& if n >= 17 {
        i8_at(src, 16, v.header.magic)
    } else {
        v.header.magic == start.header.magic
    }
    &&& if n >= 21 {
        u32_at(src, 17, v.header.crc)
    } else {
        v.header.crc == start.header.crc
    }
    &&& if n >= 23 {
        i16_at(src, 21, v.header.attributes)
    } else {
        v.header.attributes == start.header.attributes
    }
    &&& if n >= 27 {
        i32_at(src, 23, v.header.last_offset_delta)
    } else {
        v.header.last_offset_delta == start.header.last_offset_delta
    }
    &&& if n >= 35 {
        i64_at(src, 27, v.header.first_timestamp)
    } else {
        v.header.first_timestamp == start.header.first_timestamp
    }
    &&& if n >= 43 {
        i64_at(src, 35, v.header.max_time_stamp)
    } else {
        v.header.max_time_stamp == start.header.max_time_stamp
    }
    &&& if n >= 51 {
        i64_at(src, 43, v.header.producer_id)
    } else {
        v.header.producer_id == start.header.producer_id
    }
    &&& if n >= 53 {
        i16_at(src, 51, v.header.producer_epoch)
    } else {
        v.header.producer_epoch == start.header.producer_epoch
    }
    &&& if n >= 57 {
        i32_at(src, 53, v.header.first_sequence)
    } else {
        v.header.first_sequence == start.header.first_sequence
    }
    &&& v.records == start.records
    &&& n < 8 ==> read.rest == src
    &&& 8 <= n < 12 ==> read.rest == src.skip(8)
    &&& 12 <= n < 16 ==> read.rest == src.skip(12)
    &&& 16 <= n < 17 ==> read.rest == src.skip(16)
    &&& 17 <= n < 21 ==> read.rest == src.skip(17)
    &&& 21 <= n < 23 ==> read.rest == src.skip(21)
    &&& 23 <= n < 27 ==> read.rest == src.skip(23)
    &&& 27 <= n < 35 ==> read.rest == src.skip(27)
    &&& 35 <= n < 43 ==> read.rest == src.skip(35)
    &&& 43 <= n < 51 ==> read.rest == src.skip(43)
    &&& 51 <= n < 53 ==> read.rest == src.skip(51)
    &&& 53 <= n < 57 ==> read.rest == src.skip(53)
    &&& n >= 57 ==> read.rest == src.skip(57)
    &&& read.outcome == if n >= 57 {
        Ok::<(), Error>(())
    } else {
        Err(Error::UnexpectedEof)
    }
}

proof fn lemma_front_is_read<T>(start: BatchView<T>, src: Seq<u8>, version: Version)
    ensures
        front_is_read(start, src, read_file_header(start, src, version)),
{
    let n = src.len();
    let behind = src.skip(12);
    assert(src.skip(0) =~= src);
    i64_is_read(start.base_offset, src, 0, version);
    if n >= 8 {
        i32_is_read(start.batch_len, src, 8, version);
    }
    if n >= 12 {
        assert(behind.skip(0) =~= behind);
        i32_is_read(start.header.partition_leader_epoch, src, 12, version);
    }
    if n >= 16 {
        assert(behind.skip(4) =~= src.skip(16));
        i8_is_read(start.header.magic, src, 16, version);
    }
    if n >= 17 {
        assert(behind.skip(5) =~= src.skip(17));
        u32_is_read(start.header.crc, src, 17, version);
    }
    if n >= 21 {
        assert(behind.skip(9) =~= src.skip(21));
        i16_is_read(start.header.attributes, src, 21, version);
    }
    if n >= 23 {
        assert(behind.skip(11) =~= src.skip(23));
        i32_is_read(start.header.last_offset_delta, src, 23, version);
    }
    if n >= 27 {
        assert(behind.skip(15) =~= src.skip(27));
        i64_is_read(start.header.first_timestamp, src, 27, version);
    }
    if n >= 35 {
        assert(behind.skip(23) =~= src.skip(35));
        i64_is_read(start.header.max_time_stamp, src, 35, version);
    }
    if n >= 43 {
        assert(behind.skip(31) =~= src.skip(43));
        i64_is_read(start.header.producer_id, src, 43, version);
    }
    if n >= 51 {
        assert(behind.skip(39) =~= src.skip(51));
        i16_is_read(start.header.producer_epoch, src, 51, version);
    }
    if n >= 53 {
        assert(behind.skip(41) =~= src.skip(53));
        i32_is_read(start.header.first_sequence, src, 53, version);
    }
    if n >= 57 {
        assert(behind.skip(45) =~= src.skip(57));
    }
}

/// Reading all of a batch but its records takes the fields from their places in the first
/// `BATCH_FILE_HEADER_SIZE` bytes, goes well just where these are there, and looks at no other.
pub proof fn file_header_is_read<R>(
    batch: &mut Batch<R>,
    src: &mut &[u8],
    version: Version,
    result: Result<(), Error>,
)
    requires
        call_ensures(Batch::<R>::decode_from_file_buf, (batch, src, version), result),
    ensures
        front_is_read(
            old(batch)@,
            (*old(src))@,
            (Decoded { value: final(batch)@, rest: (*final(src))@, outcome: result }),
        ),
{
    lemma_front_is_read(old(batch)@, (*old(src))@, version);
}

/// What follows the first `BATCH_FILE_HEADER_SIZE` bytes has no part in reading all of a batch
/// but its records: these bytes alone give the same.
pub proof fn file_header_alone_is_enough<T>(start: BatchView<T>, src: Seq<u8>, version: Version)
    requires
        src.len() >= 57,
    ensures
        ({
            let alone = read_file_header(start, src.take(57), version);
            &&& alone.outcome is Ok
            &&& alone.rest.len() == 0
            &&& alone.value == read_file_header(start, src, version).value
        }),
{
    let head = src.take(57);
    let behind = src.skip(12);
    let header = head.skip(12);
    assert(head.skip(0).take(8) =~= src.skip(0).take(8));
    assert(head.skip(8).take(4) =~= src.skip(8).take(4));
    assert(header.skip(0).take(4) =~= behind.skip(0).take(4));
    assert(header.skip(4).take(1) =~= behind.skip(4).take(1));
    assert(header.skip(5).take(4) =~= behind.skip(5).take(4));
    assert(header.skip(9).take(2) =~= behind.skip(9).take(2));
    assert(header.skip(11).take(4) =~= behind.skip(11).take(4));
    assert(header.skip(15).take(8) =~= behind.skip(15).take(8));
    assert(header.skip(23).take(8) =~= behind.skip(23).take(8));
    assert(header.skip(31).take(8) =~= behind.skip(31).take(8));
    assert(header.skip(39).take(2) =~= behind.skip(39).take(2));
    assert(header.skip(41).take(4) =~= behind.skip(41).take(4));
}

/// The first `BATCH_FILE_HEADER_SIZE` bytes of a batch that was written are enough to read all
/// of it but its records, whether or not the records follow.
pub proof fn file_header_needs_no_records<R: BatchRecords, T>(
    start: BatchView<T>,
    v: BatchView<R::V>,
    version: Version,
)
    ensures
        ({
            let bytes = Batch::<R>::wire(v, version);
            let alone = read_file_header(start, bytes.take(57), version);
            let followed = read_file_header(start, bytes, version);
            &&& alone.outcome is Ok
            &&& alone.rest.len() == 0
            &&& alone.value == followed.value
            &&& alone.value.base_offset == v.base_offset
            &&& i32_at(bytes, 8, alone.value.batch_len)
            &&& alone.value.header == (BatchHeader { crc: alone.value.header.crc, ..v.header })
            &&& u32_at(bytes, 17, alone.value.header.crc)
            &&& alone.value.records == start.records
        }),
{
    let bytes = Batch::<R>::wire(v, version);
    batch_wire_len::<R>(v, version);
    file_header_reads_back::<R, T>(start, v, Seq::empty(), version);
    assert(bytes + Seq::<u8>::empty() =~= bytes);
    lemma_front_is_read(start, bytes, version);
    file_header_alone_is_enough(start, bytes, version);
}

/// In front of the checksum stand the base offset, the length of the header and of what the
/// records are said to take, cut down to 32 bits, the leader epoch and the magic number.
pub open spec fn front_at<R: Encoder>(bytes: Seq<u8>, v: BatchView<R::V>, version: Version) -> bool {
    &&& bytes.len() >= 17
    &&& i64_at(bytes, 0, v.base_offset)
    &&& number_4(bytes, 8) == (45 + R::size(v.records, version)) % 0x1_0000_0000
    &&& i32_at(bytes, 12, v.header.partition_leader_epoch)
    &&& i8_at(bytes, 16, v.header.magic)
}

/// Behind the front stand the checksum of all bytes that follow it, the other fields of the
/// header, each in its place, and the records.
pub open spec fn batch_at<R: Encoder>(bytes: Seq<u8>, v: BatchView<R::V>, version: Version) -> bool {
    &&& bytes.len() == 57 + R::wire(v.records, version).len()
    &&& front_at::<R>(bytes, v, version)
    &&& u32_at(bytes, 17, crc32c_of(bytes.skip(21)))
    &&& i16_at(bytes, 21, v.header.attributes)
    &&& i32_at(bytes, 23, v.header.last_offset_delta)
    &&& i64_at(bytes, 27, v.header.first_timestamp)
    &&& i64_at(bytes, 35, v.header.max_time_stamp)
    &&& i64_at(bytes, 43, v.header.producer_id)
    &&& i16_at(bytes, 51, v.header.producer_epoch)
    &&& i32_at(bytes, 53, v.header.first_sequence)
    &&& bytes.skip(57) == R::wire(v.records, version)
}

/// In a batch that was written every field stands in its place.
pub proof fn written_batch_layout<R: BatchRecords>(v: BatchView<R::V>, version: Version)
    ensures
        batch_at::<R>(Batch::<R>::wire(v, version), v, version),
{
    let bytes = Batch::<R>::wire(v, version);
    let start = Batch::<R>::blank();
    batch_wire_len::<R>(v, version);
    file_header_reads_back::<R, R::V>(start, v, Seq::empty(), version);
    assert(bytes + Seq::<u8>::empty() =~= bytes);
    lemma_front_is_read(start, bytes, version);
    checksum_covers_what_follows::<R>(v, version);
    u32_is_read(0, bytes, 17, version);
    assert(R::wire(v.records, version) + Seq::<u8>::empty() =~= R::wire(v.records, version));
}

proof fn lemma_front_alone<R: Encoder>(bytes: Seq<u8>, v: BatchView<R::V>, version: Version)
    requires
        front_at::<R>(bytes, v, version),
    ensures
        front_at::<R>(bytes.take(17), v, version),
{
    let head = bytes.take(17);
    assert(number_8(head, 0) == number_8(bytes, 0));
    assert(number_4(head, 8) == number_4(bytes, 8));
    assert(number_4(head, 12) == number_4(bytes, 12));
    assert(head[16] == bytes[16]);
}

proof fn lemma_encoded<R: BatchRecords>(v: BatchView<R::V>, version: Version)
    ensures
        ({
            let encoded = Batch::<R>::encoded(v, version);
            &&& encoded.outcome == R::encoded(v.records, version).outcome
            &&& encoded.outcome is Ok ==> batch_at::<R>(encoded.bytes, v, version)
            &&& encoded.outcome is Err ==> encoded.bytes.len() == 17 && front_at::<R>(
                encoded.bytes,
                v,
                version,
            )
        }),
{
    let bytes = Batch::<R>::wire(v, version);
    written_batch_layout::<R>(v, version);
    match R::encoded(v.records, version).outcome {
        Ok(unit) => {
            assert(unit == ());
        },
        Err(error) => {
            failed_records_leave_the_front::<R>(v, error, version);
            lemma_front_alone::<R>(bytes, v, version);
        },
    }
}

/// Writing a batch appends its bytes, every field in its place, just where its records can be
/// written. Where they cannot, the front is left, and the error is theirs.
pub proof fn batch_is_written<R: BatchRecords>(
    batch: &Batch<R>,
    dest: &mut Vec<u8>,
    version: Version,
    result: Result<(), Error>,
)
    requires
        call_ensures(<Batch<R> as Encoder>::encode, (batch, dest, version), result),
    ensures
        ({
            let v = batch.deep_view();
            let bytes = final(dest)@.skip(old(dest)@.len() as int);
            &&& result == R::encoded(v.records, version).outcome
            &&& final(dest)@ == old(dest)@ + bytes
            &&& result is Ok ==> batch_at::<R>(bytes, v, version)
            &&& result is Err ==> bytes.len() == 17 && front_at::<R>(bytes, v, version)
        }),
{
    let v = batch.deep_view();
    let encoded = Batch::<R>::encoded(v, version);
    assert(final(dest)@.skip(old(dest)@.len() as int) =~= encoded.bytes);
    lemma_encoded::<R>(v, version);
}

/// A batch of records in memory has bytes of its own, every field in its place.
pub proof fn memory_batch_has_bytes(
    batch: &Batch,
    version: Version,
    result: Result<Vec<u8>, Error>,
)
    requires
        call_ensures(<Batch as Encoder>::as_bytes, (batch, version), result),
    ensures
        result matches Ok(bytes) && batch_at::<MemoryRecords>(
            bytes@,
            batch.deep_view(),
            version,
        ),
{
    written_batch_layout::<MemoryRecords>(batch.deep_view(), version);
}

/// Reading a batch takes all but the records from their places, and the records from what
/// follows.
pub proof fn batch_is_read<R: BatchRecords>(
    batch: &mut Batch<R>,
    src: &mut &[u8],
    version: Version,
    result: Result<(), Error>,
)
    requires
        call_ensures(<Batch<R> as Decoder>::decode, (batch, src, version), result),
    ensures
        ({
            let start = old(batch).deep_view();
            let read = final(batch).deep_view();
            let all = (*old(src))@;
            let records = R::read(start.records, all.skip(57), version);
            if all.len() < 57 {
                front_is_read(
                    start,
                    all,
                    (Decoded { value: read, rest: (*final(src))@, outcome: result }),
                )
            } else {
                &&& front_is_read(
                    start,
                    all,
                    (Decoded {
                        value: (BatchView { records: start.records, ..read }),
                        rest: all.skip(57),
                        outcome: Ok(()),
                    }),
                )
                &&& read.records == records.value
                &&& (*final(src))@ == records.rest
                &&& result == records.outcome
            }
        }),
{
    lemma_front_is_read(old(batch).deep_view(), (*old(src))@, version);
}

/// The fields of a header stand in their places in what is written of it.
pub proof fn header_is_written(v: BatchHeader, rest: Seq<u8>, version: Version)
    ensures
        header_at(BatchHeader::wire(v, version) + rest, 0, v),
        BatchHeader::wire(v, version).len() == 45,
        BatchHeader::encoded(v, version) == (Encoded {
            bytes: BatchHeader::wire(v, version),
            outcome: Ok(()),
        }),
        BatchHeader::size(v, version) == 45,
{
    header_has_fixed_size(v, version);
    BatchHeader::reads_back(v, rest, version);
    header_is_read(BatchHeader::blank(), BatchHeader::wire(v, version) + rest, version);
}

/// A header is read from its first bytes, every field from its place. A shorter source is
/// refused, and gives the fields that it holds whole.
pub proof fn header_is_read(start: BatchHeader, src: Seq<u8>, version: Version)
    ensures
        ({
            let read = BatchHeader::read(start, src, version);
            let n = src.len();
            let v = read.value;
            &&& n >= 45 ==> header_at(src, 0, v) && read.rest == src.skip(45) && read.outcome is Ok
            &&& n < 45 ==> read.outcome == Err::<(), Error>(Error::UnexpectedEof)
            &&& if n >= 4 {
                i32_at(src, 0, v.partition_leader_epoch)
            } else {
                v.partition_leader_epoch == start.partition_leader_epoch
            }
            &&& if n >= 5 {
                i8_at(src, 4, v.magic)
            } else {
                v.magic == start.magic
            }
            &&& if n >= 9 {
                u32_at(src, 5, v.crc)
            } else {
                v.crc == start.crc
            }
            &&& if n >= 11 {
                i16_at(src, 9, v.attributes)
            } else {
                v.attributes == start.attributes
            }
            &&& if n >= 15 {
                i32_at(src, 11, v.last_offset_delta)
            } else {
                v.last_offset_delta == start.last_offset_delta
            }
            &&& if n >= 23 {
                i64_at(src, 15, v.first_timestamp)
            } else {
                v.first_timestamp == start.first_timestamp
            }
            &&& if n >= 31 {
                i64_at(src, 23, v.max_time_stamp)
            } else {
                v.max_time_stamp == start.max_time_stamp
            }
            &&& if n >= 39 {
                i64_at(src, 31, v.producer_id)
            } else {
                v.producer_id == start.producer_id
            }
            &&& if n >= 41 {
                i16_at(src, 39, v.producer_epoch)
            } else {
                v.producer_epoch == start.producer_epoch
            }
            &&& if n >= 45 {
                i32_at(src, 41, v.first_sequence)
            } else {
                v.first_sequence == start.first_sequence
            }
            &&& n < 4 ==> read.rest == src
            &&& 4 <= n < 5 ==> read.rest == src.skip(4)
            &&& 5 <= n < 9 ==> read.rest == src.skip(5)
            &&& 9 <= n < 11 ==> read.rest == src.skip(9)
            &&& 11 <= n < 15 ==> read.rest == src.skip(11)
            &&& 15 <= n < 23 ==> read.rest == src.skip(15)
            &&& 23 <= n < 31 ==> read.rest == src.skip(23)
            &&& 31 <= n < 39 ==> read.rest == src.skip(31)
            &&& 39 <= n < 41 ==> read.rest == src.skip(39)
            &&& 41 <= n < 45 ==> read.rest == src.skip(41)
        }),
{
    let n = src.len();
    assert(src.skip(0) =~= src);
    i32_is_read(start.partition_leader_epoch, src, 0, version);
    if n >= 4 {
        i8_is_read(start.magic, src, 4, version);
    }
    if n >= 5 {
        u32_is_read(start.crc, src, 5, version);
    }
    if n >= 9 {
        i16_is_read(start.attributes, src, 9, version);
    }
    if n >= 11 {
        i32_is_read(start.last_offset_delta, src, 11, version);
    }
    if n >= 15 {
        i64_is_read(start.first_timestamp, src, 15, version);
    }
    if n >= 23 {
        i64_is_read(start.max_time_stamp, src, 23, version);
    }
    if n >= 31 {
        i64_is_read(start.producer_id, src, 31, version);
    }
    if n >= 39 {
        i16_is_read(start.producer_epoch, src, 39, version);
    }
    if n >= 41 {
        i32_is_read(start.first_sequence, src, 41, version);
    }
}

/// A batch takes `BATCH_FILE_HEADER_SIZE` bytes and those that its records are said to take; the
/// sum wraps around.
pub proof fn batch_size_adds_up<R: BatchRecords>(batch: &Batch<R>, version: Version, size: usize)
    requires
        call_ensures(<Batch<R> as Encoder>::write_size, (batch, version), size),
    ensures
        ({
            let sum = 57 + R::size(batch.deep_view().records, version);
            size == if sum <= usize::MAX { sum } else { sum - usize::MAX - 1 }
        }),
{
    let sum = (57 + R::size(batch.deep_view().records, version)) as nat;
    lemma_wrapped_is_mod(sum);
    if sum > usize::MAX {
        let m = usize::MAX as int + 1;
        lemma_mod_multiples_vanish(1, sum - m, m);
        lemma_small_mod((sum - m) as nat, m as nat);
    }
}

/// A batch is valid just where the length that it holds is the low 32 bits of the bytes of the
/// header and of what its records are said to take.
pub proof fn validity_compares_lengths<R: Encoder>(batch: &Batch<R>, valid: bool)
    requires
        call_ensures(Batch::<R>::validate_decoding, (batch,), valid),
    ensures
        ({
            let v = batch.deep_view();
            valid <==> (45 + R::size(v.records, 0) - v.batch_len) % 0x1_0000_0000 == 0
        }),
{
}

/// A batch is valid just where the length that it holds is that of all bytes behind the length
/// when it is written, if its records take the bytes that they are said to take.
pub proof fn valid_batch_states_its_length<R: BatchRecords>(batch: &Batch<R>, valid: bool)
    requires
        call_ensures(Batch::<R>::validate_decoding, (batch,), valid),
        is_sized::<R>(batch.deep_view().records, 0),
    ensures
        ({
            let v = batch.deep_view();
            valid <==> (Batch::<R>::wire(v, 0).len() - 12 - v.batch_len) % 0x1_0000_0000 == 0
        }),
{
    let v = batch.deep_view();
    let records = R::wire(v.records, 0);
    batch_wire_len::<R>(v, 0);
    lemma_wrapped_sum(BATCH_HEADER_SIZE as nat, records.len());
    lemma_low_i32_of_wrapped(BATCH_HEADER_SIZE as nat + records.len());
    lemma_low_i32_of_wrapped(BATCH_HEADER_SIZE as nat + R::size(v.records, 0) as nat);
}

/// The record after has all that the one before had, but for its offset delta.
pub open spec fn same_contents(before: RecordView, after: RecordView) -> bool {
    &&& after.key == before.key
    &&& after.value == before.value
    &&& after.headers == before.headers
    &&& after.preamble.attributes == before.preamble.attributes
    &&& after.preamble.timestamp_delta == before.preamble.timestamp_delta
}

/// `after` holds the records in their order, with offset deltas that count up from zero.
pub open spec fn counts_up(before: Seq<RecordView>, after: Seq<RecordView>) -> bool {
    &&& after.len() == before.len()
    &&& forall|i: int|
        0 <= i < after.len() ==> {
            &&& same_contents(before[i], #[trigger] after[i])
            &&& i <= i64::MAX ==> after[i].preamble.offset_delta == i
        }
}

/// The headers have all fields in common but the last offset delta.
pub open spec fn same_but_last_offset_delta(before: BatchHeader, after: BatchHeader) -> bool {
    &&& after.partition_leader_epoch == before.partition_leader_epoch
    &&& after.magic == before.magic
    &&& after.crc == before.crc
    &&& after.attributes == before.attributes
    &&& after.first_timestamp == before.first_timestamp
    &&& after.max_time_stamp == before.max_time_stamp
    &&& after.producer_id == before.producer_id
    &&& after.producer_epoch == before.producer_epoch
    &&& after.first_sequence == before.first_sequence
}

/// `after` is `before` with `records` in place of its records: they count up, the last offset
/// delta is one below their number, and nothing else has changed. The number of records is taken
/// to 32 bits, of which the lowest number has none below it.
pub open spec fn has_records(
    before: BatchView<Seq<RecordView>>,
    records: Seq<RecordView>,
    after: BatchView<Seq<RecordView>>,
) -> bool {
    let n = records.len();
    &&& after.base_offset == before.base_offset
    &&& after.batch_len == before.batch_len
    &&& same_but_last_offset_delta(before.header, after.header)
    &&& n <= i32::MAX ==> after.header.last_offset_delta == n - 1
    &&& n % 0x1_0000_0000 != 0x8000_0000 ==> (n - 1 - after.header.last_offset_delta)
        % 0x1_0000_0000 == 0
    &&& counts_up(records, after.records)
}

/// Adding a record puts it behind the others and numbers all of them; nothing else changes.
pub proof fn adding_a_record(batch: &mut Batch, record: Record)
    requires
        call_ensures(Batch::add_record, (batch, record), ()),
    ensures
        has_records(
            old(batch).deep_view(),
            old(batch).deep_view().records + seq![record.deep_view()],
            final(batch).deep_view(),
        ),
{
    let before = old(batch).deep_view();
    assert(before.records + seq![record.deep_view()] =~= before.records.push(record.deep_view()));
}

/// Adding records puts them behind the others in their order, numbers all of them and leaves
/// none behind; nothing else changes.
pub proof fn adding_records(batch: &mut Batch, records: &mut Vec<Record>)
    requires
        call_ensures(Batch::add_records, (batch, records), ()),
    ensures
        final(records)@.len() == 0,
        has_records(
            old(batch).deep_view(),
            old(batch).deep_view().records + old(records).deep_view(),
            final(batch).deep_view(),
        ),
{
}

/// Adjusting the offset deltas numbers the records and changes nothing else.
pub proof fn updating_offset_deltas(batch: &mut Batch)
    requires
        call_ensures(Batch::update_offset_deltas, (batch,), ()),
    ensures
        has_records(
            old(batch).deep_view(),
            old(batch).deep_view().records,
            final(batch).deep_view(),
        ),
{
}

/// In a batch that records were added to, the offset behind the batch is one above its last
/// offset, and the last offset is that of its last record.
pub proof fn offsets_after_adding(
    batch: &mut Batch,
    records: &mut Vec<Record>,
    last: Offset,
    behind: Offset,
)
    requires
        call_ensures(Batch::add_records, (batch, records), ()),
        call_ensures(Batch::<MemoryRecords>::get_last_offset, (final(batch),), last),
        call_ensures(Batch::computed_last_offset, (final(batch),), behind),
        final(batch).deep_view().records.len() <= i32::MAX,
    ensures
        behind == last + 1,
        behind == old(batch)@.base_offset + old(batch).deep_view().records.len() + old(
            records,
        )@.len(),
        ({
            let after = final(batch).deep_view();
            after.records.len() > 0 ==> last == after.base_offset
                + after.records.last().preamble.offset_delta
        }),
{
}

/// The fields of the header of a batch that nothing was put into.
pub open spec fn is_fresh_header(header: BatchHeader) -> bool {
    &&& header.partition_leader_epoch == -1
    &&& header.magic == 2
    &&& header.crc == 0
    &&& header.attributes == 0
    &&& header.first_timestamp == 0
    &&& header.max_time_stamp == 0
    &&& header.producer_id == -1
    &&& header.producer_epoch == -1
    &&& header.first_sequence == -1
}

/// A header by default has no epoch, no producer and no time, and no record behind it.
pub proof fn fresh_header(header: BatchHeader)
    requires
        call_ensures(BatchHeader::default, (), header),
    ensures
        is_fresh_header(header),
        header.last_offset_delta == -1,
        header == BatchHeader::blank(),
{
}

/// A batch by default has a fresh header, begins at zero and holds the records by default.
pub proof fn fresh_batch<R: Default>(batch: Batch<R>)
    requires
        call_ensures(Batch::<R>::default, (), batch),
    ensures
        batch@.base_offset == 0,
        batch@.batch_len == 0,
        is_fresh_header(batch@.header),
        batch@.header.last_offset_delta == -1,
        call_ensures(R::default, (), batch@.records),
{
}

/// A new batch has no records, so that its last offset is one below its base offset.
pub proof fn new_batch(batch: Batch)
    requires
        call_ensures(Batch::new, (), batch),
    ensures
        batch@.base_offset == 0,
        batch@.batch_len == 0,
        is_fresh_header(batch@.header),
        batch@.header.last_offset_delta == -1,
        batch.deep_view().records.len() == 0,
{
}

/// The batch has a fresh header, begins at zero and holds the records, which count up. The last
/// offset delta is one below their number, taken to 32 bits as `len`, or that number itself where
/// it is below one.
pub open spec fn consists_of(
    batch: BatchView<Seq<RecordView>>,
    records: Seq<RecordView>,
    len: i32,
) -> bool {
    &&& batch.base_offset == 0
    &&& batch.batch_len == 0
    &&& is_fresh_header(batch.header)
    &&& batch.header.last_offset_delta == if len > 0 { len - 1 } else { len as int }
    &&& counts_up(records, batch.records)
}

/// A batch made of records consists of them.
pub proof fn batch_of_records(records: MemoryRecords, batch: Batch, len: i32)
    requires
        call_ensures(Batch::from_records, (records,), batch),
        (records@.len() - len) % 0x1_0000_0000 == 0,
    ensures
        consists_of(batch.deep_view(), records.deep_view(), len),
{
    assert(records.deep_view().len() == records@.len());
    lemma_low_is_unique(records@.len(), len);
}

proof fn lemma_low_is_unique(n: nat, len: i32)
    requires
        (n - len) % 0x1_0000_0000 == 0,
    ensures
        low_i32(n) == len,
{
}

/// A batch converted from a vector consists of its records.
pub proof fn batch_of_vector(records: MemoryRecords, batch: Batch, len: i32)
    requires
        call_ensures(<Batch as From<MemoryRecords>>::from, (records,), batch),
        (records@.len() - len) % 0x1_0000_0000 == 0,
    ensures
        consists_of(batch.deep_view(), records.deep_view(), len),
{
    assert(records.deep_view().len() == records@.len());
    lemma_low_is_unique(records@.len(), len);
}

/// A batch converted from anything that turns into records consists of what it turns into.
pub proof fn batch_of_converted<T: Into<MemoryRecords>>(records: T, batch: Batch)
    requires
        call_ensures(<Batch as From<T>>::from, (records,), batch),
    ensures
        exists|all: MemoryRecords, len: i32|
            {
                &&& call_ensures(T::into, (records,), all)
                &&& (all@.len() - len) % 0x1_0000_0000 == 0
                &&& #[trigger] consists_of(batch.deep_view(), all.deep_view(), len)
            },
{
    let all = choose|all: MemoryRecords|
        #![trigger made_of(all.deep_view())]
        call_ensures(T::into, (records,), all) && batch.deep_view() == made_of(all.deep_view());
    let len = low_i32(all@.len());
    assert(all.deep_view().len() == all@.len());
    assert(consists_of(batch.deep_view(), all.deep_view(), len));
}

/// A batch made of some records differs from the empty batch with these records added in nothing.
pub proof fn making_is_adding(
    records: MemoryRecords,
    made: Batch,
    empty: &mut Batch,
    added: &mut Vec<Record>,
)
    requires
        0 < records@.len() <= i32::MAX,
        call_ensures(Batch::from_records, (records,), made),
        call_ensures(Batch::new, (), *old(empty)),
        *old(added) == records,
        call_ensures(Batch::add_records, (empty, added), ()),
    ensures
        final(empty).deep_view() == made.deep_view(),
{
    let all = records.deep_view();
    assert(Seq::<RecordView>::empty() + all =~= all);
    assert(all.len() == records@.len());
}

/// The base offset of a batch is the one that was set last; setting it changes nothing else.
pub proof fn base_offset_is_the_one_set<R>(
    batch: &mut Batch<R>,
    given: Batch<R>,
    offset: Offset,
    built: Batch<R>,
    read: Offset,
    other: Offset,
)
    requires
        call_ensures(Batch::<R>::set_base_offset, (batch, offset), ()),
        call_ensures(Batch::<R>::get_base_offset, (final(batch),), read),
        call_ensures(Batch::<R>::base_offset, (given, offset), built),
        call_ensures(Batch::<R>::get_base_offset, (&built,), other),
    ensures
        read == offset,
        other == offset,
        final(batch)@.base_offset == offset,
        final(batch)@.batch_len == old(batch)@.batch_len,
        final(batch)@.header == old(batch)@.header,
        final(batch)@.records == old(batch)@.records,
        built@.base_offset == offset,
        built@.batch_len == given@.batch_len,
        built@.header == given@.header,
        built@.records == given@.records,
{
}

/// The last offset delta is the one that was set last; setting it changes nothing else.
pub proof fn last_offset_delta_is_the_one_set<R>(batch: &mut Batch<R>, delta: i32, read: i32)
    requires
        call_ensures(Batch::<R>::set_offset_delta, (batch, delta), ()),
        call_ensures(Batch::<R>::last_offset_delta, (final(batch),), read),
    ensures
        read == delta,
        final(batch)@.header.last_offset_delta == delta,
        final(batch)@.base_offset == old(batch)@.base_offset,
        final(batch)@.batch_len == old(batch)@.batch_len,
        same_but_last_offset_delta(old(batch)@.header, final(batch)@.header),
        final(batch)@.records == old(batch)@.records,
{
}

/// What is added to the last offset delta is what the last offset grows by; nothing else changes.
pub proof fn last_offset_grows_by_what_is_added<R>(
    batch: &mut Batch<R>,
    delta: i32,
    before: Offset,
    after: Offset,
)
    requires
        i32::MIN <= old(batch)@.header.last_offset_delta + delta <= i32::MAX,
        call_ensures(Batch::<R>::get_last_offset, (old(batch),), before),
        call_ensures(Batch::<R>::add_to_offset_delta, (batch, delta), ()),
        call_ensures(Batch::<R>::get_last_offset, (final(batch),), after),
    ensures
        after == before + delta,
        before == old(batch)@.base_offset + old(batch)@.header.last_offset_delta,
        final(batch)@.header.last_offset_delta == old(batch)@.header.last_offset_delta + delta,
        final(batch)@.base_offset == old(batch)@.base_offset,
        final(batch)@.batch_len == old(batch)@.batch_len,
        same_but_last_offset_delta(old(batch)@.header, final(batch)@.header),
        final(batch)@.records == old(batch)@.records,
{
}

/// The last offset delta as a size has the same 32 bits.
pub proof fn last_offset_delta_as_a_size<R>(batch: &Batch<R>, size: Size, delta: i32)
    requires
        call_ensures(Batch::<R>::get_last_offset_delta, (batch,), size),
        call_ensures(Batch::<R>::last_offset_delta, (batch,), delta),
    ensures
        delta == batch@.header.last_offset_delta,
        (size - delta) % 0x1_0000_0000 == 0,
{
}

/// What is put into the header of a batch is what it holds afterwards; nothing else changes.
pub proof fn header_is_the_one_put_in<R>(
    batch: &mut Batch<R>,
    header: &mut BatchHeader,
    read: &BatchHeader,
)
    requires
        call_ensures(Batch::<R>::get_mut_header, (batch,), header),
        call_ensures(Batch::<R>::get_header, (final(batch),), read),
    ensures
        *old(header) == old(batch)@.header,
        *read == *final(header),
        final(batch)@.header == *final(header),
        final(batch)@.base_offset == old(batch)@.base_offset,
        final(batch)@.batch_len == old(batch)@.batch_len,
        final(batch)@.records == old(batch)@.records,
{
}

/// What is put into the records of a batch is what it holds afterwards, to look at or to take;
/// nothing else changes.
pub proof fn records_are_those_put_in<R>(
    batch: &mut Batch<R>,
    records: &mut R,
    read: &R,
    owned: R,
)
    requires
        call_ensures(Batch::<R>::mut_records, (batch,), records),
        call_ensures(Batch::<R>::records, (final(batch),), read),
        call_ensures(Batch::<R>::own_records, (*final(batch),), owned),
    ensures
        *old(records) == old(batch)@.records,
        *read == *final(records),
        owned == *final(records),
        final(batch)@.base_offset == old(batch)@.base_offset,
        final(batch)@.batch_len == old(batch)@.batch_len,
        final(batch)@.header == old(batch)@.header,
{
}

/// By default the bytes that belong to the records are all that remain.
pub proof fn remainder_belongs_to_records(records: &MemoryRecords, remainder: usize, bytes: usize)
    requires
        call_ensures(
            <MemoryRecords as BatchRecords>::remainder_bytes,
            (records, remainder),
            bytes,
        ),
    ensures
        bytes == remainder,
{
}

/// A batch of records in memory comes back from its bytes, whatever follows them: the base offset,
/// the records and all of the header but the checksum are as they were, and the checksum and the
/// length are those that stand in the bytes. The batch that comes back is valid.
pub proof fn memory_batch_comes_back(
    batch: &Batch,
    bytes: Vec<u8>,
    src: &mut &[u8],
    rest: Seq<u8>,
    version: Version,
    result: Result<Batch, Error>,
    valid: bool,
)
    requires
        batch.deep_view().records.len() <= i32::MAX,
        forall|i: int|
            0 <= i < batch.deep_view().records.len() ==> 1 + behind_attributes(
                #[trigger] batch.deep_view().records[i],
            ).len() <= i64::MAX,
        call_ensures(<Batch as Encoder>::as_bytes, (batch, version), Ok(bytes)),
        (*old(src))@ == bytes@ + rest,
        call_ensures(<Batch as Decoder>::decode_from, (src, version), result),
        result matches Ok(read) ==> call_ensures(
            Batch::<MemoryRecords>::validate_decoding,
            (&read,),
            valid,
        ),
    ensures
        (*final(src))@ == rest,
        result matches Ok(read) && {
            let before = batch.deep_view();
            let after = read.deep_view();
            &&& after.base_offset == before.base_offset
            &&& after.records == before.records
            &&& after.header == (BatchHeader { crc: after.header.crc, ..before.header })
            &&& u32_at(bytes@, 17, after.header.crc)
            &&& i32_at(bytes@, 8, after.batch_len)
            &&& valid
        },
{
    let v = batch.deep_view();
    assert forall|i: int| 0 <= i < v.records.len() implies Record::representable(
        #[trigger] v.records[i],
    ) by {
        record_comes_back(v.records[i], Seq::empty(), version);
    }
    batch_reads_back::<MemoryRecords>(v, rest, version);
    read_back_batch_is_valid(v, rest, version);
    file_header_needs_no_records::<MemoryRecords, Seq<RecordView>>(
        Batch::<MemoryRecords>::blank(),
        v,
        version,
    );
    file_header_reads_back::<MemoryRecords, Seq<RecordView>>(
        Batch::<MemoryRecords>::blank(),
        v,
        Seq::empty(),
        version,
    );
    assert(bytes@ + Seq::<u8>::empty() =~= bytes@);
}

/// A batch of records in memory that was written and cut short is never taken for a batch.
pub proof fn cut_short_memory_batch_is_refused(
    batch: &Batch,
    bytes: Vec<u8>,
    src: &mut &[u8],
    version: Version,
    result: Result<Batch, Error>,
)
    requires
        batch.deep_view().records.len() <= i32::MAX,
        forall|i: int|
            0 <= i < batch.deep_view().records.len() ==> 1 + behind_attributes(
                #[trigger] batch.deep_view().records[i],
            ).len() <= i64::MAX,
        call_ensures(<Batch as Encoder>::as_bytes, (batch, version), Ok(bytes)),
        (*old(src))@.len() < bytes@.len(),
        (*old(src))@ == bytes@.take((*old(src))@.len() as int),
        call_ensures(<Batch as Decoder>::decode_from, (src, version), result),
    ensures
        result matches Err(error) && error == Error::UnexpectedEof,
{
    let v = batch.deep_view();
    assert forall|i: int| 0 <= i < v.records.len() implies Record::representable(
        #[trigger] v.records[i],
    ) by {
        record_comes_back(v.records[i], Seq::empty(), version);
    }
    cut_short_batch_is_refused::<MemoryRecords>(v, (*old(src))@.len(), version);
}

/// The front and the part that the checksum covers are written behind what is there as they stand
/// in the bytes of the whole batch.
pub proof fn parts_are_written_as_in_the_whole<R: BatchRecords>(
    batch: &Batch<R>,
    head: &mut Vec<u8>,
    checked: &mut Vec<u8>,
    version: Version,
    head_result: Result<(), Error>,
    checked_result: Result<(), Error>,
)
    requires
        call_ensures(Batch::<R>::encode_front, (batch, head, version), head_result),
        call_ensures(Batch::<R>::encode_checked_part, (batch, checked, version), checked_result),
    ensures
        ({
            let whole = Batch::<R>::wire(batch.deep_view(), version);
            let records = R::encoded(batch.deep_view().records, version);
            &&& head_result is Ok
            &&& final(head)@ == old(head)@ + whole.take(17)
            &&& checked_result == records.outcome
            &&& checked_result is Ok ==> final(checked)@ == old(checked)@ + whole.skip(21)
            &&& final(checked)@ == old(checked)@ + whole.skip(21).take(36) + records.bytes
        }),
{
    let v = batch.deep_view();
    let whole = Batch::<R>::wire(v, version);
    let part = checked_part::<R>(v, version);
    batch_wire_len::<R>(v, version);
    front_has_fixed_size::<R>(v, version);
    lemma_be_bytes_len(crc32c_of(part) as nat, 4);
    assert(whole.take(17) =~= front::<R>(v, version));
    assert(whole.skip(21) =~= part);
    assert(whole.skip(21).take(36) =~= header_tail(v.header, version));
}

/// A checksum is written in four bytes in front of the part that it covers.
pub proof fn checksum_is_written_in_front(
    crc: u32,
    checked: &[u8],
    dest: &mut Vec<u8>,
    version: Version,
    result: Result<(), Error>,
)
    requires
        call_ensures(encode_with_checksum, (crc, checked, dest, version), result),
    ensures
        ({
            let bytes = final(dest)@.skip(old(dest)@.len() as int);
            &&& result is Ok
            &&& final(dest)@ == old(dest)@ + bytes
            &&& bytes.len() == 4 + checked@.len()
            &&& u32_at(bytes, 0, crc)
            &&& bytes.skip(4) == checked@
        }),
{
    let bytes = final(dest)@.skip(old(dest)@.len() as int);
    u32_is_written(crc, checked@, version);
    assert(bytes =~= u32::wire(crc, version) + checked@);
    assert(bytes.skip(4) =~= checked@);
}

/// The offset behind a batch is its base offset and the number of its records.
pub proof fn offset_behind_the_batch(batch: &Batch, offset: Offset)
    requires
        call_ensures(Batch::computed_last_offset, (batch,), offset),
    ensures
        offset == batch@.base_offset + batch.deep_view().records.len(),
{
}

/// The two views of a batch show the same fields.
pub proof fn views_agree<R: DeepView>(batch: Batch<R>)
    ensures
        batch.deep_view().base_offset == batch@.base_offset,
        batch.deep_view().batch_len == batch@.batch_len,
        batch.deep_view().header == batch@.header,
        batch.deep_view().records == batch@.records.deep_view(),
{
}

} // verus!
