use fluvio::batch::{Batch, BatchHeader, MemoryRecords};
use fluvio::codec::{Decoder, Encoder, Error};
use fluvio::record::{Record, RecordData, RecordHeader};

fn record(key: Option<&[u8]>, value: &[u8], attributes: i8, timestamp: i64, headers: i64) -> Record {
    Record {
        preamble: RecordHeader {
            attributes,
            timestamp_delta: timestamp,
            offset_delta: 99,
        },
        key: key.map(|bytes| RecordData::from(bytes.to_vec())),
        value: RecordData::from(value.to_vec()),
        headers,
    }
}

fn sample() -> Batch {
    let mut batch = Batch::new().base_offset(-5);
    batch.add_record(record(None, b"one", 1, -70, 0));
    batch.add_record(record(Some(b"key"), b"", -1, 1 << 40, -3));
    batch.batch_len = 1234;
    batch.header.crc = 77;
    batch.header.partition_leader_epoch = 9;
    batch.header.magic = -2;
    batch.header.attributes = 300;
    batch.header.first_timestamp = 1;
    batch.header.max_time_stamp = i64::MAX;
    batch.header.producer_id = i64::MIN;
    batch.header.producer_epoch = -300;
    batch.header.first_sequence = 65536;
    batch
}

#[test]
fn batch_comes_back() {
    let batch = sample();
    let mut bytes = batch.as_bytes(3).unwrap();
    let len = bytes.len();
    assert_eq!(batch.write_size(3), len);
    bytes.extend_from_slice(b"rest");

    let mut src = bytes.as_slice();
    let read = Batch::<MemoryRecords>::decode_from(&mut src, 3).unwrap();
    assert_eq!(src, b"rest");

    assert_eq!(read.base_offset, -5);
    assert_eq!(read.batch_len as usize, len - 12);
    assert_eq!(read.header.partition_leader_epoch, 9);
    assert_eq!(read.header.magic, -2);
    assert_eq!(read.header.crc, crc32c::crc32c(&bytes[21..len]));
    assert_eq!(read.header.attributes, 300);
    assert_eq!(read.header.last_offset_delta, 1);
    assert_eq!(read.header.first_timestamp, 1);
    assert_eq!(read.header.max_time_stamp, i64::MAX);
    assert_eq!(read.header.producer_id, i64::MIN);
    assert_eq!(read.header.producer_epoch, -300);
    assert_eq!(read.header.first_sequence, 65536);
    assert!(read.validate_decoding());

    let records = read.own_records();
    assert_eq!(records.len(), 2);
    assert!(records[0].key.is_none());
    assert_eq!(records[0].value.as_ref(), b"one");
    assert_eq!(records[0].preamble.attributes, 1);
    assert_eq!(records[0].preamble.timestamp_delta, -70);
    assert_eq!(records[0].get_offset_delta(), 0);
    assert_eq!(records[1].key.as_ref().unwrap().as_ref(), b"key");
    assert_eq!(records[1].value.len(), 0);
    assert_eq!(records[1].preamble.timestamp_delta, 1 << 40);
    assert_eq!(records[1].headers, -3);
    assert_eq!(records[1].get_offset_delta(), 1);
}

#[test]
fn checksum_and_length_stand_in_place() {
    let bytes = sample().as_bytes(0).unwrap();
    let crc = u32::from_be_bytes([bytes[17], bytes[18], bytes[19], bytes[20]]);
    assert_eq!(crc, crc32c::crc32c(&bytes[21..]));
    let len = i32::from_be_bytes([bytes[8], bytes[9], bytes[10], bytes[11]]);
    assert_eq!(len as usize, bytes.len() - 12);
}

fn crc_bit_by_bit(data: &[u8]) -> u32 {
    let mut register: u32 = 0xffff_ffff;
    for byte in data {
        register ^= *byte as u32;
        for _ in 0..8 {
            let low = register & 1;
            register >>= 1;
            if low == 1 {
                register ^= 0x82f6_3b78;
            }
        }
    }
    !register
}

#[test]
fn checksum_is_the_castagnoli_remainder() {
    assert_eq!(crc_bit_by_bit(b""), 0);
    assert_eq!(crc_bit_by_bit(b"123456789"), 0xe306_9283);
    for len in [0usize, 1, 7, 8, 9, 255, 1024, 8191, 24_576, 100_003] {
        let value: Vec<u8> = (0..len).map(|i| (i * i + 3 * i) as u8).collect();
        let mut batch = Batch::new();
        batch.add_record(record(None, &value, 0, 0, 0));
        let bytes = batch.as_bytes(0).unwrap();
        let crc = u32::from_be_bytes([bytes[17], bytes[18], bytes[19], bytes[20]]);
        assert_eq!(crc, crc_bit_by_bit(&bytes[21..]));
    }
}

#[test]
fn held_length_and_checksum_have_no_part() {
    let bytes = sample().as_bytes(0).unwrap();
    let mut other = sample();
    other.batch_len = 0;
    other.header.crc = 0;
    assert_eq!(other.as_bytes(0).unwrap(), bytes);
}

#[test]
fn rewritten_batch_is_the_same() {
    let bytes = sample().as_bytes(0).unwrap();
    let read = Batch::<MemoryRecords>::decode_from(&mut bytes.as_slice(), 0).unwrap();
    assert_eq!(read.as_bytes(0).unwrap(), bytes);
}

#[test]
fn file_header_stops_at_the_records() {
    let batch = sample();
    let bytes = batch.as_bytes(0).unwrap();
    let mut read = Batch::<MemoryRecords>::default();
    let mut src = bytes.as_slice();
    read.decode_from_file_buf(&mut src, 0).unwrap();
    assert_eq!(src, &bytes[57..]);
    assert_eq!(read.header.max_time_stamp, i64::MAX);
    assert!(read.records().is_empty());
}

#[test]
fn short_file_header_gives_the_whole_fields() {
    let bytes = sample().as_bytes(0).unwrap();
    let mut read = Batch::<MemoryRecords>::default();
    let mut src = &bytes[..20];
    assert_eq!(
        read.decode_from_file_buf(&mut src, 0),
        Err(Error::UnexpectedEof)
    );
    assert_eq!(src, &bytes[17..20]);
    assert_eq!(read.base_offset, -5);
    assert_eq!(read.header.partition_leader_epoch, 9);
    assert_eq!(read.header.magic, -2);
    assert_eq!(read.header.crc, 0);
    assert_eq!(read.header.last_offset_delta, -1);
}

#[test]
fn every_short_batch_is_refused() {
    let bytes = sample().as_bytes(0).unwrap();
    for len in 0..bytes.len() {
        let mut src = &bytes[..len];
        assert_eq!(
            Batch::<MemoryRecords>::decode_from(&mut src, 0).err(),
            Some(Error::UnexpectedEof)
        );
    }
}

#[test]
fn records_before_a_bad_one_are_kept() {
    let mut batch = Batch::new();
    batch.add_record(record(None, b"good", 0, 0, 0));
    batch.add_record(record(None, b"bad", 0, 0, 0));
    let bytes = batch.as_bytes(0).unwrap();
    let mut read = Batch::new();
    let mut src = &bytes[..bytes.len() - 1];
    assert_eq!(read.decode(&mut src, 0), Err(Error::UnexpectedEof));
    assert_eq!(read.records().len(), 1);
    assert_eq!(read.records()[0].value.as_ref(), b"good");
}

#[test]
fn decoded_records_follow_those_held() {
    let mut batch = Batch::new();
    batch.add_record(record(None, b"first", 0, 0, 0));
    let bytes = batch.as_bytes(0).unwrap();
    batch.decode(&mut bytes.as_slice(), 0).unwrap();
    assert_eq!(batch.records().len(), 2);
    assert!(!batch.validate_decoding());
}

#[test]
fn adding_in_parts_is_adding_at_once() {
    let make = |value: &[u8]| record(None, value, 0, 0, 0);
    let mut parts = Batch::new();
    parts.add_records(&mut vec![make(b"a"), make(b"b")]);
    parts.add_record(make(b"c"));
    let mut whole = Batch::new();
    whole.add_records(&mut vec![make(b"a"), make(b"b"), make(b"c")]);
    assert_eq!(parts.as_bytes(0).unwrap(), whole.as_bytes(0).unwrap());

    let made = Batch::from(vec![make(b"a"), make(b"b"), make(b"c")]);
    assert_eq!(made.as_bytes(0).unwrap(), whole.as_bytes(0).unwrap());

    whole.update_offset_deltas();
    assert_eq!(parts.as_bytes(0).unwrap(), whole.as_bytes(0).unwrap());
    assert_eq!(whole.computed_last_offset(), whole.get_last_offset() + 1);
}

#[test]
fn numbering_keeps_the_rest_of_a_record() {
    let mut batch = Batch::new();
    batch.add_record(record(Some(b"k"), b"v", 5, 6, 7));
    let kept = &batch.records()[0];
    assert_eq!(kept.key.as_ref().unwrap().as_ref(), b"k");
    assert_eq!(kept.value.as_ref(), b"v");
    assert_eq!(kept.preamble.attributes, 5);
    assert_eq!(kept.preamble.timestamp_delta, 6);
    assert_eq!(kept.headers, 7);
    assert_eq!(kept.preamble.offset_delta(), 0);
}

#[test]
fn header_comes_back() {
    let mut header = BatchHeader::default();
    header.crc = 0xdead_beef;
    let bytes = header.as_bytes(0).unwrap();
    assert_eq!(bytes.len(), 45);
    assert_eq!(&bytes[5..9], &[0xde, 0xad, 0xbe, 0xef]);
    let read = BatchHeader::decode_from(&mut bytes.as_slice(), 0).unwrap();
    assert_eq!(read.crc, 0xdead_beef);
    assert_eq!(read.producer_epoch, -1);
}
