use fluvio::batch::{
    Batch, BatchHeader, BatchRecords, MemoryRecords, BATCH_FILE_HEADER_SIZE, BATCH_HEADER_SIZE,
    BATCH_PREAMBLE_SIZE,
};
use fluvio::codec::{Decoder, Encoder, Error};
use fluvio::record::{Record, RecordData};

#[test]
fn test_batch_size() {
    let header = BatchHeader::default();
    assert_eq!(header.write_size(0), BATCH_HEADER_SIZE);
}

#[test]
fn test_encode_and_decode_batch() -> Result<(), Error> {
    let value = vec![0x74, 0x65, 0x73, 0x74];
    let record = Record {
        value: RecordData::from(value),
        ..Default::default()
    };
    let mut batch = Batch::<MemoryRecords>::default();
    batch.mut_records().push(record);
    batch.header.first_timestamp = 1555478494747;
    batch.header.max_time_stamp = 1555478494747;

    let bytes = batch.as_bytes(0)?;
    println!("batch raw bytes: {:#X?}", bytes);

    let batch = Batch::<MemoryRecords>::decode_from(&mut bytes.as_slice(), 0)?;
    println!("batch: {:#?}", batch);

    let decoded_record = batch.records().get(0).unwrap();
    println!("record crc: {}", batch.header.crc);
    assert_eq!(batch.header.crc, 1430948200);
    let b = decoded_record.value.as_ref();
    assert_eq!(b, b"test");
    assert!(batch.validate_decoding());

    Ok(())
}

#[test]
fn test_batch_offset_delta() {
    let mut batch = Batch::<MemoryRecords>::default();
    assert_eq!(batch.get_base_offset(), 0);

    assert_eq!(batch.last_offset_delta(), -1);
    // last offset is -1 because there are no records in the batch
    assert_eq!(batch.get_last_offset(), -1);

    batch.add_record(Record::default());
    assert_eq!(batch.last_offset_delta(), 0);
    assert_eq!(batch.get_last_offset(), 0);

    batch.add_record(Record::default());
    assert_eq!(batch.last_offset_delta(), 1);
    assert_eq!(batch.get_last_offset(), 1);

    batch.add_record(Record::default());
    assert_eq!(batch.last_offset_delta(), 2);
    assert_eq!(batch.get_last_offset(), 2);

    assert_eq!(
        batch
            .records()
            .get(0)
            .expect("index 0 should exists")
            .get_offset_delta(),
        0
    );
    assert_eq!(
        batch
            .records()
            .get(1)
            .expect("index 1 should exists")
            .get_offset_delta(),
        1
    );
    assert_eq!(
        batch
            .records()
            .get(2)
            .expect("index 2 should exists")
            .get_offset_delta(),
        2
    );
}

#[test]
fn test_batch_offset_diff_base() {
    let mut batch = Batch::<MemoryRecords>::default();
    batch.set_base_offset(1000);
    assert_eq!(batch.get_base_offset(), 1000);

    assert_eq!(batch.last_offset_delta(), -1);
    // last offset is -1 because there are no records in the batch
    assert_eq!(batch.get_last_offset(), 999);

    batch.add_record(Record::default());
    assert_eq!(batch.last_offset_delta(), 0);
    assert_eq!(batch.get_last_offset(), 1000);

    batch.add_record(Record::default());
    assert_eq!(batch.last_offset_delta(), 1);
    assert_eq!(batch.get_last_offset(), 1001);

    batch.add_record(Record::default());
    assert_eq!(batch.last_offset_delta(), 2);
    assert_eq!(batch.get_last_offset(), 1002);

    assert_eq!(
        batch
            .records()
            .get(0)
            .expect("index 0 should exists")
            .get_offset_delta(),
        0
    );
    assert_eq!(
        batch
            .records()
            .get(1)
            .expect("index 1 should exists")
            .get_offset_delta(),
        1
    );
    assert_eq!(
        batch
            .records()
            .get(2)
            .expect("index 2 should exists")
            .get_offset_delta(),
        2
    );
}

#[test]
fn test_records_offset_delta() {
    let mut batch = Batch::<MemoryRecords>::default();
    batch.set_base_offset(2000);
    assert_eq!(batch.get_base_offset(), 2000);

    // add records directly
    batch.mut_records().append(&mut vec![
        Record::default(),
        Record::default(),
        Record::default(),
    ]);
    batch.update_offset_deltas();
    assert_eq!(batch.last_offset_delta(), 2);
    assert_eq!(batch.get_last_offset(), 2002);

    assert_eq!(
        batch
            .records()
            .get(0)
            .expect("index 0 should exists")
            .get_offset_delta(),
        0
    );
    assert_eq!(
        batch
            .records()
            .get(1)
            .expect("index 1 should exists")
            .get_offset_delta(),
        1
    );
    assert_eq!(
        batch
            .records()
            .get(2)
            .expect("index 2 should exists")
            .get_offset_delta(),
        2
    );
}

#[test]
fn test_batch_records_offset() {
    let mut comparison = Batch::<MemoryRecords>::default();
    comparison.add_record(Record::default());
    comparison.add_record(Record::default());
    comparison.add_record(Record::default());

    let batch_created = Batch::from(vec![
        Record::default(),
        Record::default(),
        Record::default(),
    ]);

    for i in 0..3 {
        assert_eq!(
            batch_created
                .records()
                .get(i)
                .expect("get record")
                .get_offset_delta(),
            comparison
                .records()
                .get(i)
                .expect("get record")
                .get_offset_delta(),
            "Creating a Batch from a Vec gave wrong delta",
        )
    }

    assert_eq!(batch_created.last_offset_delta(), 2);
}

#[test]
fn sizes_of_the_front() {
    assert_eq!(BATCH_PREAMBLE_SIZE, 12);
    assert_eq!(BATCH_HEADER_SIZE, 45);
    assert_eq!(BATCH_FILE_HEADER_SIZE, 57);
}

#[test]
fn default_header_fields() {
    let header = BatchHeader::default();
    assert_eq!(header.partition_leader_epoch, -1);
    assert_eq!(header.magic, 2);
    assert_eq!(header.crc, 0);
    assert_eq!(header.attributes, 0);
    assert_eq!(header.last_offset_delta, -1);
    assert_eq!(header.first_timestamp, 0);
    assert_eq!(header.max_time_stamp, 0);
    assert_eq!(header.producer_id, -1);
    assert_eq!(header.producer_epoch, -1);
    assert_eq!(header.first_sequence, -1);
}

#[test]
fn new_batch_is_empty() {
    let batch = Batch::new();
    assert_eq!(batch.base_offset, 0);
    assert_eq!(batch.batch_len, 0);
    assert_eq!(batch.get_header().last_offset_delta, -1);
    assert!(batch.records().is_empty());
    assert_eq!(batch.computed_last_offset(), 0);
    assert!(!batch.validate_decoding());
}

#[test]
fn accessors_reach_the_fields() {
    let mut batch = Batch::new().base_offset(7);
    assert_eq!(batch.get_base_offset(), 7);
    batch.get_mut_header().producer_id = 12;
    assert_eq!(batch.get_header().producer_id, 12);
    batch.set_offset_delta(4);
    batch.add_to_offset_delta(3);
    assert_eq!(batch.last_offset_delta(), 7);
    assert_eq!(batch.get_last_offset(), 14);
    assert_eq!(batch.get_last_offset_delta(), 7);
    batch.set_offset_delta(-1);
    assert_eq!(batch.get_last_offset_delta(), u32::MAX);
    batch.mut_records().push(Record::default());
    assert_eq!(batch.records().len(), 1);
    assert_eq!(batch.own_records().len(), 1);
}

#[test]
fn remainder_is_all_for_the_records() {
    let records: MemoryRecords = vec![];
    assert_eq!(records.remainder_bytes(17), 17);
}

#[test]
fn batch_made_of_no_records() {
    let batch = Batch::from(Vec::<Record>::new());
    assert_eq!(batch.last_offset_delta(), 0);
    assert!(batch.records().is_empty());

    let mut empty = Batch::new();
    empty.add_records(&mut vec![]);
    assert_eq!(empty.last_offset_delta(), -1);
}

#[test]
fn batch_made_of_an_array() {
    let batch = Batch::from([Record::default(), Record::default()]);
    assert_eq!(batch.last_offset_delta(), 1);
    assert_eq!(batch.records()[1].get_offset_delta(), 1);
}

#[test]
fn added_records_are_moved() {
    let mut batch = Batch::new();
    let mut records = vec![Record::default(), Record::default()];
    batch.add_records(&mut records);
    assert!(records.is_empty());
    assert_eq!(batch.records().len(), 2);
    assert_eq!(batch.computed_last_offset(), 2);
}
