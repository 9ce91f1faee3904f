use fluvio::batch::{Batch, BatchRecords};
use fluvio::codec::{Decoded, Decoder, Encoded, Encoder, Error, Version};
use vstd::seq::Seq;

/// Records that say they take nine bytes and cannot be written.
#[derive(Debug, Default)]
struct Broken {}

impl vstd::view::DeepView for Broken {
    type V = ();

    fn deep_view(&self) {
        unreachable!()
    }
}

impl Encoder for Broken {
    fn wire(_value: (), _version: Version) -> Seq<u8> {
        unreachable!()
    }

    fn encoded(_value: (), _version: Version) -> Encoded {
        unreachable!()
    }

    fn size(_value: (), _version: Version) -> usize {
        unreachable!()
    }

    fn write_size(&self, _version: Version) -> usize {
        9
    }

    fn encode(&self, dest: &mut Vec<u8>, _version: Version) -> Result<(), Error> {
        dest.push(1);
        Err(Error::Other("broken".to_string()))
    }
}

impl Decoder for Broken {
    fn blank() {
        unreachable!()
    }

    fn read(_start: (), _src: Seq<u8>, _version: Version) -> Decoded<()> {
        unreachable!()
    }

    fn default_is_blank(_value: Self) {
        unreachable!()
    }

    fn decode(&mut self, _src: &mut &[u8], _version: Version) -> Result<(), Error> {
        Err(Error::InvalidData)
    }
}

impl BatchRecords for Broken {}

#[test]
fn records_that_cannot_be_written() {
    let batch = Batch::<Broken>::default().base_offset(1);
    let mut dest = vec![7];
    assert_eq!(
        batch.encode(&mut dest, 0),
        Err(Error::Other("broken".to_string()))
    );
    assert_eq!(
        dest,
        [7, 0, 0, 0, 0, 0, 0, 0, 1, 0, 0, 0, 54, 0xff, 0xff, 0xff, 0xff, 2]
    );
    assert_eq!(batch.write_size(0), 66);
    assert_eq!(batch.as_bytes(0), Err(Error::Other("broken".to_string())));
}
