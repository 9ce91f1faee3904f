# fluvio

Batches of records as Fluvio stores and sends them, and the decisions of a Fluvio
administrator, verified with Verus.

- `src/codec.rs`: what it means to write a value and to read it back.
- `src/ints.rs`, `src/varint.rs`, `src/collections.rs`: numbers, flags, options, lists.
- `src/record.rs`: a record.
- `src/batch.rs`, `src/batch_laws.rs`: a batch, and what holds of every batch.
- `src/checksum.rs`, `src/conversion.rs`: what is taken on trust, the CRC-32C of the `crc32c`
  crate and the conversion of a type to itself.
- `src/admin.rs`, `src/admin_laws.rs`: the steps that connect an administrator, its requests
  and what becomes of their replies.
- `src/connector.rs`, `src/test_option.rs`: a command of the command line, options of a test.
- `app/`: buffers, connections and command line options around the library.
