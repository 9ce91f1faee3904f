use fluvio::codec::{Decoder, Encoder, Error};
use fluvio::collections::truncate_i32;
use fluvio::record::{Record, RecordData, RecordHeader};
use fluvio::varint::{decode_varint, encode_varint, varint_size};

fn varint_bytes(n: i64) -> Vec<u8> {
    let mut out = vec![];
    encode_varint(n, &mut out);
    out
}

#[test]
fn numbers_are_big_endian() {
    assert_eq!((-2i8).as_bytes(0).unwrap(), [0xfe]);
    assert_eq!(0x0102i16.as_bytes(0).unwrap(), [1, 2]);
    assert_eq!((-2i32).as_bytes(0).unwrap(), [0xff, 0xff, 0xff, 0xfe]);
    assert_eq!(0x01020304u32.as_bytes(0).unwrap(), [1, 2, 3, 4]);
    assert_eq!(
        i64::MIN.as_bytes(0).unwrap(),
        [0x80, 0, 0, 0, 0, 0, 0, 0]
    );
    assert_eq!(1i8.write_size(0), 1);
    assert_eq!(1i16.write_size(0), 2);
    assert_eq!(1i32.write_size(0), 4);
    assert_eq!(1u32.write_size(0), 4);
    assert_eq!(1i64.write_size(0), 8);
}

#[test]
fn numbers_come_back() {
    for n in [i8::MIN, -1, 0, 1, i8::MAX] {
        assert_eq!(i8::decode_from(&mut n.as_bytes(0).unwrap().as_slice(), 0), Ok(n));
    }
    for n in [i16::MIN, -1, 0, 258, i16::MAX] {
        assert_eq!(i16::decode_from(&mut n.as_bytes(0).unwrap().as_slice(), 0), Ok(n));
    }
    for n in [i32::MIN, -1, 0, 65537, i32::MAX] {
        assert_eq!(i32::decode_from(&mut n.as_bytes(0).unwrap().as_slice(), 0), Ok(n));
    }
    for n in [0, 1, u32::MAX] {
        assert_eq!(u32::decode_from(&mut n.as_bytes(0).unwrap().as_slice(), 0), Ok(n));
    }
    for n in [i64::MIN, -1, 0, 1 << 33, i64::MAX] {
        assert_eq!(i64::decode_from(&mut n.as_bytes(0).unwrap().as_slice(), 0), Ok(n));
    }
}

#[test]
fn short_number_is_left_alone() {
    let bytes = [1u8, 2, 3];
    let mut src = &bytes[..];
    let mut n = 7i32;
    assert_eq!(n.decode(&mut src, 0), Err(Error::UnexpectedEof));
    assert_eq!(n, 7);
    assert_eq!(src, &bytes);
}

#[test]
fn flags() {
    assert_eq!(true.as_bytes(0).unwrap(), [1]);
    assert_eq!(false.as_bytes(0).unwrap(), [0]);
    assert_eq!(true.write_size(0), 1);
    assert_eq!(bool::decode_from(&mut &[1u8][..], 0), Ok(true));
    assert_eq!(bool::decode_from(&mut &[0u8][..], 0), Ok(false));
    assert_eq!(bool::decode_from(&mut &[2u8][..], 0), Err(Error::InvalidData));
    assert_eq!(bool::decode_from(&mut &[][..], 0), Err(Error::UnexpectedEof));
}

#[test]
fn options_and_lists() {
    assert_eq!(Some(5i8).as_bytes(0).unwrap(), [1, 5]);
    assert_eq!(None::<i8>.as_bytes(0).unwrap(), [0]);
    assert_eq!(Some(5i8).write_size(0), 2);
    assert_eq!(Option::<i8>::decode_from(&mut &[1u8, 5][..], 0), Ok(Some(5)));
    assert_eq!(Option::<i8>::decode_from(&mut &[0u8][..], 0), Ok(None));

    let list = vec![1i16, -1];
    let bytes = list.as_bytes(0).unwrap();
    assert_eq!(bytes, [0, 0, 0, 2, 0, 1, 0xff, 0xff]);
    assert_eq!(list.write_size(0), 8);
    assert_eq!(Vec::<i16>::decode_from(&mut bytes.as_slice(), 0), Ok(list));

    let negative = [0xffu8, 0xff, 0xff, 0xff, 9];
    let mut src = &negative[..];
    assert_eq!(Vec::<i16>::decode_from(&mut src, 0), Ok(vec![]));
    assert_eq!(src, [9]);
}

#[test]
fn counts_are_cut_down() {
    assert_eq!(truncate_i32(5), 5);
    assert_eq!(truncate_i32(0x7fff_ffff), i32::MAX);
    assert_eq!(truncate_i32(0x8000_0000), i32::MIN);
    assert_eq!(truncate_i32(0xffff_ffff), -1);
}

#[test]
fn small_magnitudes_take_one_byte() {
    assert_eq!(varint_bytes(0), [0]);
    assert_eq!(varint_bytes(-1), [1]);
    assert_eq!(varint_bytes(1), [2]);
    assert_eq!(varint_bytes(10), [0x14]);
    assert_eq!(varint_bytes(63), [126]);
    assert_eq!(varint_bytes(-64), [127]);
    assert_eq!(varint_bytes(64), [0x80, 1]);
    assert_eq!(varint_bytes(i64::MIN).len(), 10);
    assert_eq!(varint_size(i64::MIN), 10);
    assert_eq!(varint_size(64), 2);
}

#[test]
fn varints_come_back() {
    for n in [0, -1, 1, 63, 64, -65, 1 << 31, -(1 << 40), i64::MAX, i64::MIN] {
        let mut bytes = varint_bytes(n);
        assert_eq!(bytes.len(), varint_size(n));
        bytes.push(0xaa);
        let mut src = bytes.as_slice();
        let mut read = 3;
        assert_eq!(decode_varint(&mut read, &mut src), Ok(()));
        assert_eq!(read, n);
        assert_eq!(src, [0xaa]);
    }
}

#[test]
fn bad_varints_are_refused() {
    let mut n = 3;
    let unfinished = [0x80u8, 0x80];
    let mut src = &unfinished[..];
    assert_eq!(decode_varint(&mut n, &mut src), Err(Error::UnexpectedEof));
    assert_eq!(src, &unfinished);

    let mut too_large = [0xffu8; 10];
    too_large[9] = 2;
    assert_eq!(decode_varint(&mut n, &mut &too_large[..]), Err(Error::InvalidData));

    let too_long = [0x80u8; 11];
    assert_eq!(decode_varint(&mut n, &mut &too_long[..]), Err(Error::InvalidData));
    assert_eq!(n, 3);
}

#[test]
fn record_on_the_wire() {
    let record = Record {
        value: RecordData::from(b"test".to_vec()),
        ..Default::default()
    };
    let bytes = record.as_bytes(0).unwrap();
    assert_eq!(bytes, [0x14, 0, 0, 0, 0, 8, 0x74, 0x65, 0x73, 0x74, 0]);
    assert_eq!(record.write_size(0), 11);
}

#[test]
fn record_longer_than_the_source() {
    let mut record = Record::default();
    let bytes = [0x14u8, 0, 0];
    let mut src = &bytes[..];
    assert_eq!(record.decode(&mut src, 0), Err(Error::UnexpectedEof));
    assert_eq!(src, [0, 0]);
}

#[test]
fn data_with_a_negative_length() {
    let mut data = RecordData::from(vec![1]);
    assert_eq!(data.decode(&mut &[1u8][..], 0), Err(Error::InvalidData));
    assert_eq!(data.as_ref(), [1]);
    assert_eq!(data.decode(&mut &[4u8, 9][..], 0), Err(Error::UnexpectedEof));
    assert_eq!(data.decode(&mut &[4u8, 9, 8][..], 0), Ok(()));
    assert_eq!(data.as_ref(), [9, 8]);
}

#[test]
fn record_header_delta() {
    let mut header = RecordHeader::default();
    header.set_offset_delta(70);
    assert_eq!(header.offset_delta(), 70);
    assert_eq!(header.as_bytes(0).unwrap(), [0, 0, 0x8c, 1]);
    assert_eq!(header.write_size(0), 4);
}
