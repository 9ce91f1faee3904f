use vstd::prelude::*;
use vstd::slice::{slice_subrange, slice_to_vec};

use crate::codec::{
    add_sizes, is_sized, wrapped, Decoded, Decoder, Encoded, Encoder, Error, Lossless, Version,
};
use crate::ints::{i8_at, i8_is_written, lemma_be_bytes_len, twos_complement};
use crate::varint::{
    decode_varint, encode_varint, lemma_varint_len, read_varint, varint,
    varint_cut_short_is_refused, varint_reads_back, varint_size,
};
use crate::Offset;

verus! {

/// The bytes of a key or of a value.
#[derive(Debug)]
pub struct RecordData(pub Vec<u8>);

impl DeepView for RecordData {
    type V = Seq<u8>;

    open spec fn deep_view(&self) -> Seq<u8> {
        self.0@
    }
}

impl Default for RecordData {
    fn default() -> (data: RecordData)
        ensures
            data.deep_view() == Seq::<u8>::empty(),
    {
        RecordData(Vec::new())
    }
}

impl From<Vec<u8>> for RecordData {
    fn from(bytes: Vec<u8>) -> (data: RecordData) {
        RecordData(bytes)
    }
}

impl vstd::std_specs::convert::FromSpecImpl<Vec<u8>> for RecordData {
    open spec fn obeys_from_spec() -> bool {
        true
    }

    open spec fn from_spec(bytes: Vec<u8>) -> RecordData {
        RecordData(bytes)
    }
}

impl RecordData {
    pub fn as_ref(&self) -> (bytes: &[u8])
        ensures
            bytes@ == self.deep_view(),
    {
        self.0.as_slice()
    }

    pub fn len(&self) -> (len: usize)
        ensures
            len == self.deep_view().len(),
    {
        self.0.len()
    }
}

impl Encoder for RecordData {
    /// The number of bytes in variable-length form, then the bytes.
    open spec fn wire(v: Seq<u8>, version: Version) -> Seq<u8> {
        varint(v.len() as i64) + v
    }

    open spec fn encoded(v: Seq<u8>, version: Version) -> Encoded {
        Encoded { bytes: Self::wire(v, version), outcome: Ok(()) }
    }

    open spec fn size(v: Seq<u8>, version: Version) -> usize {
        wrapped(varint(v.len() as i64).len() + v.len())
    }

    fn write_size(&self, version: Version) -> (size: usize) {
        add_sizes(varint_size(self.0.len() as i64), self.0.len())
    }

    fn encode(&self, dest: &mut Vec<u8>, version: Version) -> (result: Result<(), Error>) {
        encode_varint(self.0.len() as i64, dest);
        dest.extend_from_slice(self.0.as_slice());
        assert(dest@ =~= old(dest)@ + Self::wire(self.deep_view(), version));
        Ok(())
    }
}

impl Decoder for RecordData {
    open spec fn blank() -> Seq<u8> {
        Seq::empty()
    }

    /// A negative length is refused; so is one that exceeds what is left of the source.
    open spec fn read(start: Seq<u8>, src: Seq<u8>, version: Version) -> Decoded<Seq<u8>> {
        let len = read_varint(0, src);
        if len.outcome is Err {
            Decoded { value: start, rest: len.rest, outcome: len.outcome }
        } else if len.value < 0 {
            Decoded { value: start, rest: len.rest, outcome: Err(Error::InvalidData) }
        } else if len.value > len.rest.len() {
            Decoded { value: start, rest: len.rest, outcome: Err(Error::UnexpectedEof) }
        } else {
            Decoded {
                value: len.rest.take(len.value as int),
                rest: len.rest.skip(len.value as int),
                outcome: Ok(()),
            }
        }
    }

    proof fn default_is_blank(value: RecordData) {
        assert(call_ensures(RecordData::default, (), value));
    }

    fn decode(&mut self, src: &mut &[u8], version: Version) -> (result: Result<(), Error>) {
        let mut len: i64 = 0;
        let result = decode_varint(&mut len, src);
        if result.is_err() {
            return result;
        }
        if len < 0 {
            return Err(Error::InvalidData);
        }
        let left: &[u8] = *src;
        if len as u64 > left.len() as u64 {
            return Err(Error::UnexpectedEof);
        }
        self.0 = slice_to_vec(slice_subrange(left, 0, len as usize));
        *src = slice_subrange(left, len as usize, left.len());
        Ok(())
    }
}

impl Lossless for RecordData {
    open spec fn representable(v: Seq<u8>) -> bool {
        v.len() <= i64::MAX
    }

    proof fn reads_back(v: Seq<u8>, rest: Seq<u8>, version: Version) {
        let src = Self::wire(v, version) + rest;
        assert(src =~= varint(v.len() as i64) + (v + rest));
        varint_reads_back(0, v.len() as i64, v + rest);
        assert((v + rest).take(v.len() as int) =~= v);
        assert((v + rest).skip(v.len() as int) =~= rest);
    }

    proof fn cut_short_is_refused(v: Seq<u8>, len: nat, version: Version) {
        let count = varint(v.len() as i64);
        let src = Self::wire(v, version).take(len as int);
        if len < count.len() {
            assert(src =~= count.take(len as int));
            varint_cut_short_is_refused(0, v.len() as i64, len);
        } else {
            let left = v.take(len - count.len());
            assert(src =~= count + left);
            varint_reads_back(0, v.len() as i64, left);
        }
    }
}

/// What is kept about a record beside its key and its value.
#[derive(Debug)]
pub struct RecordHeader {
    pub attributes: i8,
    /// Time of the record, counted from the first of its batch.
    pub timestamp_delta: i64,
    /// Place of the record, counted from the first of its batch.
    pub offset_delta: Offset,
}

impl DeepView for RecordHeader {
    type V = RecordHeader;

    open spec fn deep_view(&self) -> RecordHeader {
        *self
    }
}

impl Default for RecordHeader {
    fn default() -> (header: RecordHeader)
        ensures
            header == (RecordHeader { attributes: 0, timestamp_delta: 0, offset_delta: 0 }),
    {
        RecordHeader { attributes: 0, timestamp_delta: 0, offset_delta: 0 }
    }
}

impl RecordHeader {
    pub fn set_offset_delta(&mut self, delta: Offset)
        ensures
            *final(self) == (RecordHeader { offset_delta: delta, ..*old(self) }),
    {
        self.offset_delta = delta;
    }

    pub fn offset_delta(&self) -> (delta: Offset)
        ensures
            delta == self.offset_delta,
    {
        self.offset_delta
    }
}

impl Encoder for RecordHeader {
    /// The attributes, then the two deltas in variable-length form.
    open spec fn wire(v: RecordHeader, version: Version) -> Seq<u8> {
        i8::wire(v.attributes, version) + varint(v.timestamp_delta) + varint(v.offset_delta)
    }

    open spec fn encoded(v: RecordHeader, version: Version) -> Encoded {
        Encoded { bytes: Self::wire(v, version), outcome: Ok(()) }
    }

    open spec fn size(v: RecordHeader, version: Version) -> usize {
        (1 + varint(v.timestamp_delta).len() + varint(v.offset_delta).len()) as usize
    }

    fn write_size(&self, version: Version) -> (size: usize) {
        proof {
            lemma_varint_len(self.timestamp_delta);
            lemma_varint_len(self.offset_delta);
        }
        self.attributes.write_size(version) + varint_size(self.timestamp_delta) + varint_size(
            self.offset_delta,
        )
    }

    fn encode(&self, dest: &mut Vec<u8>, version: Version) -> (result: Result<(), Error>) {
        self.attributes.encode(dest, version)?;
        encode_varint(self.timestamp_delta, dest);
        encode_varint(self.offset_delta, dest);
        assert(dest@ =~= old(dest)@ + Self::wire(*self, version));
        Ok(())
    }
}

impl Decoder for RecordHeader {
    open spec fn blank() -> RecordHeader {
        RecordHeader { attributes: 0, timestamp_delta: 0, offset_delta: 0 }
    }

    /// The fields are read in turn; the first that cannot be read ends the reading.
    open spec fn read(start: RecordHeader, src: Seq<u8>, version: Version) -> Decoded<
        RecordHeader,
    > {
        let attributes = i8::read(start.attributes, src, version);
        let timestamp = read_varint(start.timestamp_delta, attributes.rest);
        let offset = read_varint(start.offset_delta, timestamp.rest);
        if attributes.outcome is Err {
            Decoded { value: start, rest: attributes.rest, outcome: attributes.outcome }
        } else if timestamp.outcome is Err {
            Decoded {
                value: RecordHeader { attributes: attributes.value, ..start },
                rest: timestamp.rest,
                outcome: timestamp.outcome,
            }
        } else {
            Decoded {
                value: RecordHeader {
                    attributes: attributes.value,
                    timestamp_delta: timestamp.value,
                    offset_delta: offset.value,
                },
                rest: offset.rest,
                outcome: offset.outcome,
            }
        }
    }

    proof fn default_is_blank(value: RecordHeader) {
        assert(call_ensures(RecordHeader::default, (), value));
    }

    fn decode(&mut self, src: &mut &[u8], version: Version) -> (result: Result<(), Error>) {
        let result = self.attributes.decode(src, version);
        if result.is_err() {
            return result;
        }
        let result = decode_varint(&mut self.timestamp_delta, src);
        if result.is_err() {
            return result;
        }
        decode_varint(&mut self.offset_delta, src)
    }
}

impl Lossless for RecordHeader {
    open spec fn representable(v: RecordHeader) -> bool {
        true
    }

    proof fn reads_back(v: RecordHeader, rest: Seq<u8>, version: Version) {
        let after_timestamp = varint(v.offset_delta) + rest;
        let after_attributes = varint(v.timestamp_delta) + after_timestamp;
        assert(Self::wire(v, version) + rest =~= i8::wire(v.attributes, version)
            + after_attributes);
        i8::reads_back(v.attributes, after_attributes, version);
        varint_reads_back(0, v.timestamp_delta, after_timestamp);
        varint_reads_back(0, v.offset_delta, rest);
    }

    proof fn cut_short_is_refused(v: RecordHeader, len: nat, version: Version) {
        let attributes = i8::wire(v.attributes, version);
        let timestamp = varint(v.timestamp_delta);
        let offset = varint(v.offset_delta);
        let src = Self::wire(v, version).take(len as int);
        lemma_be_bytes_len(twos_complement(v.attributes as int, 1), 1);
        if len >= 1 + timestamp.len() {
            let left = offset.take(len - 1 - timestamp.len());
            assert(src =~= attributes + (timestamp + left));
            i8::reads_back(v.attributes, timestamp + left, version);
            varint_reads_back(0, v.timestamp_delta, left);
            varint_cut_short_is_refused(0, v.offset_delta, (len - 1 - timestamp.len()) as nat);
        } else if len >= 1 {
            let left = timestamp.take(len - 1);
            assert(src =~= attributes + left);
            i8::reads_back(v.attributes, left, version);
            varint_cut_short_is_refused(0, v.timestamp_delta, (len - 1) as nat);
        }
    }
}

/// A value with an optional key.
#[derive(Debug)]
pub struct Record {
    pub preamble: RecordHeader,
    pub key: Option<RecordData>,
    pub value: RecordData,
    pub headers: i64,
}

/// What a record holds.
#[verifier::ext_equal]
pub struct RecordView {
    pub preamble: RecordHeader,
    pub key: Option<Seq<u8>>,
    pub value: Seq<u8>,
    pub headers: i64,
}

impl DeepView for Record {
    type V = RecordView;

    open spec fn deep_view(&self) -> RecordView {
        RecordView {
            preamble: self.preamble,
            key: self.key.deep_view(),
            value: self.value.deep_view(),
            headers: self.headers,
        }
    }
}

impl Default for Record {
    fn default() -> (record: Record)
        ensures
            record.deep_view() == Record::blank(),
    {
        Record {
            preamble: RecordHeader::default(),
            key: None,
            value: RecordData::default(),
            headers: 0,
        }
    }
}

impl Record {
    /// Place of the record, counted from the first of its batch.
    pub fn get_offset_delta(&self) -> (delta: Offset)
        ensures
            delta == self.deep_view().preamble.offset_delta,
    {
        self.preamble.offset_delta
    }
}

/// The wire form of a record without the length in front.
pub open spec fn record_body(v: RecordView, version: Version) -> Seq<u8> {
    RecordHeader::wire(v.preamble, version) + Option::<RecordData>::wire(v.key, version)
        + RecordData::wire(v.value, version) + varint(v.headers)
}

/// The number of bytes that the body of a record is said to take.
pub open spec fn record_body_size(v: RecordView, version: Version) -> usize {
    let front = wrapped(
        RecordHeader::size(v.preamble, version) as nat + Option::<RecordData>::size(
            v.key,
            version,
        ) as nat,
    );
    let data = wrapped(front as nat + RecordData::size(v.value, version) as nat);
    wrapped(data as nat + varint(v.headers).len())
}

/// A record that fits into memory takes the number of bytes that it is said to take.
pub proof fn record_is_sized(v: RecordView, version: Version)
    requires
        record_body(v, version).len() <= usize::MAX,
    ensures
        is_sized::<Record>(v, version),
{
    lemma_be_bytes_len(twos_complement(v.preamble.attributes as int, 1), 1);
    lemma_varint_len(v.preamble.timestamp_delta);
    lemma_varint_len(v.preamble.offset_delta);
}

impl Encoder for Record {
    /// The length of the body in variable-length form, then the body.
    open spec fn wire(v: RecordView, version: Version) -> Seq<u8> {
        varint(record_body(v, version).len() as i64) + record_body(v, version)
    }

    open spec fn encoded(v: RecordView, version: Version) -> Encoded {
        Encoded { bytes: Self::wire(v, version), outcome: Ok(()) }
    }

    open spec fn size(v: RecordView, version: Version) -> usize {
        let inner = record_body_size(v, version);
        wrapped(varint(inner as i64).len() + inner as nat)
    }

    fn write_size(&self, version: Version) -> (size: usize) {
        let inner: usize = add_sizes(self.preamble.write_size(version), self.key.write_size(version));
        let inner: usize = add_sizes(inner, self.value.write_size(version));
        let inner: usize = add_sizes(inner, varint_size(self.headers));
        add_sizes(varint_size(inner as i64), inner)
    }

    fn encode(&self, dest: &mut Vec<u8>, version: Version) -> (result: Result<(), Error>) {
        let mut out: Vec<u8> = Vec::new();
        self.preamble.encode(&mut out, version)?;
        self.key.encode(&mut out, version)?;
        self.value.encode(&mut out, version)?;
        encode_varint(self.headers, &mut out);
        assert(out@ =~= record_body(self.deep_view(), version));
        encode_varint(out.len() as i64, dest);
        dest.append(&mut out);
        assert(dest@ =~= old(dest)@ + Self::wire(self.deep_view(), version));
        Ok(())
    }
}

impl Decoder for Record {
    open spec fn blank() -> RecordView {
        RecordView {
            preamble: RecordHeader::blank(),
            key: None,
            value: Seq::empty(),
            headers: 0,
        }
    }

    /// The source must hold at least as many bytes as the length says. The parts are read in
    /// turn; the first that cannot be read ends the reading.
    open spec fn read(start: RecordView, src: Seq<u8>, version: Version) -> Decoded<RecordView> {
        let len = read_varint(0, src);
        let preamble = RecordHeader::read(start.preamble, len.rest, version);
        let key = Option::<RecordData>::read(start.key, preamble.rest, version);
        let value = RecordData::read(start.value, key.rest, version);
        let headers = read_varint(start.headers, value.rest);
        if len.outcome is Err {
            Decoded { value: start, rest: len.rest, outcome: len.outcome }
        } else if len.rest.len() < len.value {
            Decoded { value: start, rest: len.rest, outcome: Err(Error::UnexpectedEof) }
        } else if preamble.outcome is Err {
            Decoded {
                value: RecordView { preamble: preamble.value, ..start },
                rest: preamble.rest,
                outcome: preamble.outcome,
            }
        } else if key.outcome is Err {
            Decoded {
                value: RecordView { preamble: preamble.value, key: key.value, ..start },
                rest: key.rest,
                outcome: key.outcome,
            }
        } else if value.outcome is Err {
            Decoded {
                value: RecordView {
                    preamble: preamble.value,
                    key: key.value,
                    value: value.value,
                    headers: start.headers,
                },
                rest: value.rest,
                outcome: value.outcome,
            }
        } else {
            Decoded {
                value: RecordView {
                    preamble: preamble.value,
                    key: key.value,
                    value: value.value,
                    headers: headers.value,
                },
                rest: headers.rest,
                outcome: headers.outcome,
            }
        }
    }

    proof fn default_is_blank(value: Record) {
        assert(call_ensures(Record::default, (), value));
    }

    fn decode(&mut self, src: &mut &[u8], version: Version) -> (result: Result<(), Error>) {
        let mut len: i64 = 0;
        let result = decode_varint(&mut len, src);
        if result.is_err() {
            return result;
        }
        if len > 0 && (src.len() as u64) < len as u64 {
            return Err(Error::UnexpectedEof);
        }
        let result = self.preamble.decode(src, version);
        if result.is_err() {
            return result;
        }
        let result = self.key.decode(src, version);
        if result.is_err() {
            return result;
        }
        let result = self.value.decode(src, version);
        if result.is_err() {
            return result;
        }
        decode_varint(&mut self.headers, src)
    }
}

impl Lossless for Record {
    /// Lengths that 64 bits can tell.
    open spec fn representable(v: RecordView) -> bool {
        forall|version: Version| (#[trigger] record_body(v, version)).len() <= i64::MAX
    }

    proof fn reads_back(v: RecordView, rest: Seq<u8>, version: Version) {
        let body = record_body(v, version);
        let after_value = varint(v.headers) + rest;
        let after_key = RecordData::wire(v.value, version) + after_value;
        let after_preamble = Option::<RecordData>::wire(v.key, version) + after_key;
        assert(Self::wire(v, version) + rest =~= varint(body.len() as i64) + (body + rest));
        varint_reads_back(0, body.len() as i64, body + rest);
        assert(body + rest =~= RecordHeader::wire(v.preamble, version) + after_preamble);
        RecordHeader::reads_back(v.preamble, after_preamble, version);
        Option::<RecordData>::reads_back(v.key, after_key, version);
        RecordData::reads_back(v.value, after_value, version);
        varint_reads_back(0, v.headers, rest);
    }

    proof fn cut_short_is_refused(v: RecordView, len: nat, version: Version) {
        let body = record_body(v, version);
        let count = varint(body.len() as i64);
        let src = Self::wire(v, version).take(len as int);
        if len < count.len() {
            assert(src =~= count.take(len as int));
            varint_cut_short_is_refused(0, body.len() as i64, len);
        } else {
            let left = body.take(len - count.len());
            assert(src =~= count + left);
            varint_reads_back(0, body.len() as i64, left);
        }
    }
}

/// Data is written as the number of its bytes, in variable-length form, and the bytes.
pub proof fn data_is_written(v: Seq<u8>, version: Version)
    requires
        v.len() <= i64::MAX,
    ensures
        ({
            let bytes = RecordData::wire(v, version);
            let count = varint(v.len() as i64);
            &&& bytes.len() == count.len() + v.len()
            &&& bytes.take(count.len() as int) == count
            &&& bytes.skip(count.len() as int) == v
            &&& RecordData::encoded(v, version) == (Encoded { bytes, outcome: Ok(()) })
        }),
        is_sized::<RecordData>(v, version),
{
    let count = varint(v.len() as i64);
    assert(RecordData::wire(v, version).take(count.len() as int) =~= count);
    assert(RecordData::wire(v, version).skip(count.len() as int) =~= v);
}

/// Data is read behind the number of its bytes. What cannot be read leaves the data that is there:
/// a number that is negative or cannot be read, and more bytes than there are.
pub proof fn data_is_read(start: Seq<u8>, src: Seq<u8>, version: Version)
    ensures
        RecordData::blank().len() == 0,
        ({
            let read = RecordData::read(start, src, version);
            let count = read_varint(0, src);
            let n = count.value;
            &&& read.outcome is Err ==> read.value == start && read.rest == count.rest
            &&& count.outcome is Err ==> read.outcome == count.outcome
            &&& count.outcome is Ok && n < 0 ==> read.outcome == Err::<(), Error>(
                Error::InvalidData,
            )
            &&& count.outcome is Ok && n > count.rest.len() ==> read.outcome == Err::<(), Error>(
                Error::UnexpectedEof,
            )
            &&& count.outcome is Ok && 0 <= n <= count.rest.len() ==> {
                &&& read.outcome is Ok
                &&& read.value.len() == n
                &&& read.value + read.rest == count.rest
            }
        }),
{
    let count = read_varint(0, src);
    let n = count.value;
    if count.outcome is Ok && 0 <= n <= count.rest.len() {
        assert(count.rest.take(n as int) + count.rest.skip(n as int) =~= count.rest);
    }
}

/// What a record has behind its attributes: the two deltas, whether there is a key, the key, the
/// value and the headers. Numbers are in variable-length form, and the bytes of the key and of the
/// value stand behind their number.
pub open spec fn behind_attributes(v: RecordView) -> Seq<u8> {
    let key = match v.key {
        Some(key) => seq![1u8] + varint(key.len() as i64) + key,
        None => seq![0u8],
    };
    varint(v.preamble.timestamp_delta) + varint(v.preamble.offset_delta) + key + varint(
        v.value.len() as i64,
    ) + v.value + varint(v.headers)
}

proof fn lemma_body(v: RecordView, version: Version)
    ensures
        record_body(v, version) == i8::wire(v.preamble.attributes, version) + behind_attributes(v),
        record_body(v, version).len() == 1 + behind_attributes(v).len(),
{
    let behind = behind_attributes(v);
    i8_is_written(v.preamble.attributes, behind, version);
    if let Some(key) = v.key {
        assert(Option::<RecordData>::wire(v.key, version) =~= seq![1u8] + varint(key.len() as i64)
            + key);
    }
    assert(record_body(v, version) =~= i8::wire(v.preamble.attributes, version) + behind);
}

/// A record is written as the number of bytes that follow, in variable-length form, the attributes
/// and what it has behind them.
pub proof fn record_is_written(v: RecordView, version: Version)
    requires
        1 + behind_attributes(v).len() <= i64::MAX,
    ensures
        ({
            let bytes = Record::wire(v, version);
            let behind = behind_attributes(v);
            let count = varint((1 + behind.len()) as i64);
            let at = count.len() as int;
            &&& bytes.len() == count.len() + 1 + behind.len()
            &&& bytes.take(at) == count
            &&& i8_at(bytes, at, v.preamble.attributes)
            &&& bytes.skip(at + 1) == behind
            &&& Record::encoded(v, version) == (Encoded { bytes, outcome: Ok(()) })
        }),
{
    let bytes = Record::wire(v, version);
    let body = record_body(v, version);
    let behind = behind_attributes(v);
    lemma_body(v, version);
    i8_is_written(v.preamble.attributes, behind, version);
    let count = varint(body.len() as i64);
    let at = count.len() as int;
    assert(bytes.take(at) =~= count);
    assert(bytes.skip(at + 1) =~= behind);
    assert(bytes[at] == body[0]);
}

/// A record comes back from what is written of it, and takes the bytes that it is said to take.
pub proof fn record_comes_back(v: RecordView, rest: Seq<u8>, version: Version)
    requires
        1 + behind_attributes(v).len() <= i64::MAX,
    ensures
        Record::representable(v),
        Record::read(Record::blank(), Record::wire(v, version) + rest, version) == (Decoded {
            value: v,
            rest,
            outcome: Ok(()),
        }),
        1 + behind_attributes(v).len() <= usize::MAX ==> is_sized::<Record>(v, version),
{
    assert forall|other: Version| (#[trigger] record_body(v, other)).len() <= i64::MAX by {
        lemma_body(v, other);
    }
    lemma_body(v, version);
    Record::reads_back(v, rest, version);
    if 1 + behind_attributes(v).len() <= usize::MAX {
        record_is_sized(v, version);
    }
}

/// The header of a record is written as the attributes and the two deltas.
pub proof fn record_header_is_written(v: RecordHeader, version: Version)
    ensures
        ({
            let bytes = RecordHeader::wire(v, version);
            &&& i8_at(bytes, 0, v.attributes)
            &&& bytes.skip(1) == varint(v.timestamp_delta) + varint(v.offset_delta)
            &&& RecordHeader::encoded(v, version) == (Encoded { bytes, outcome: Ok(()) })
        }),
        is_sized::<RecordHeader>(v, version),
{
    let deltas = varint(v.timestamp_delta) + varint(v.offset_delta);
    i8_is_written(v.attributes, deltas, version);
    assert(RecordHeader::wire(v, version) =~= i8::wire(v.attributes, version) + deltas);
    assert(RecordHeader::wire(v, version).skip(1) =~= deltas);
    lemma_varint_len(v.timestamp_delta);
    lemma_varint_len(v.offset_delta);
}

/// The header of a record is read from a byte with the attributes and the two deltas behind it.
/// The first that cannot be read is reported, and leaves itself and the others as they are.
pub proof fn record_header_is_read(
    start: RecordHeader,
    attributes: i8,
    src: Seq<u8>,
    version: Version,
)
    ensures
        ({
            let read = RecordHeader::read(start, i8::wire(attributes, version) + src, version);
            let timestamp = read_varint(start.timestamp_delta, src);
            let offset = read_varint(start.offset_delta, timestamp.rest);
            &&& read.value.attributes == attributes
            &&& read.value.timestamp_delta == timestamp.value
            &&& timestamp.outcome is Err ==> {
                &&& read.outcome == timestamp.outcome
                &&& read.rest == timestamp.rest
                &&& read.value.offset_delta == start.offset_delta
            }
            &&& timestamp.outcome is Ok ==> {
                &&& read.outcome == offset.outcome
                &&& read.rest == offset.rest
                &&& read.value.offset_delta == offset.value
            }
        }),
        RecordHeader::read(start, Seq::empty(), version) == (Decoded {
            value: start,
            rest: Seq::empty(),
            outcome: Err(Error::UnexpectedEof),
        }),
{
    i8::reads_back(attributes, src, version);
}

/// A record is read behind the number of its bytes, part by part: the header, the key, the value
/// and the headers. A part is read from what the part before leaves, once that was read; what
/// ends the reading is reported, and the parts behind it stay as they are. A source with fewer
/// bytes than the number says is refused before any part is read.
pub proof fn record_is_read(start: RecordView, src: Seq<u8>, version: Version)
    ensures
        ({
            let read = Record::read(start, src, version);
            let count = read_varint(0, src);
            let preamble = RecordHeader::read(start.preamble, count.rest, version);
            let key = Option::<RecordData>::read(start.key, preamble.rest, version);
            let value = RecordData::read(start.value, key.rest, version);
            let headers = read_varint(start.headers, value.rest);
            let counted = count.outcome is Ok && count.value <= count.rest.len();
            let began = counted && preamble.outcome is Ok;
            let keyed = began && key.outcome is Ok;
            let valued = keyed && value.outcome is Ok;
            &&& read.value.preamble == if counted { preamble.value } else { start.preamble }
            &&& read.value.key == if began { key.value } else { start.key }
            &&& read.value.value == if keyed { value.value } else { start.value }
            &&& read.value.headers == if valued { headers.value } else { start.headers }
            &&& count.outcome is Err ==> read.outcome == count.outcome && read.rest == count.rest
            &&& count.outcome is Ok && !counted ==> read.outcome == Err::<(), Error>(
                Error::UnexpectedEof,
            ) && read.rest == count.rest
            &&& counted && !began ==> read.outcome == preamble.outcome && read.rest == preamble.rest
            &&& began && !keyed ==> read.outcome == key.outcome && read.rest == key.rest
            &&& keyed && !valued ==> read.outcome == value.outcome && read.rest == value.rest
            &&& valued ==> read.outcome == headers.outcome && read.rest == headers.rest
        }),
{
}

/// A record by default is empty, without a key, and stands first in its batch.
pub proof fn fresh_record(record: Record, header: RecordHeader, data: RecordData)
    requires
        call_ensures(Record::default, (), record),
        call_ensures(RecordHeader::default, (), header),
        call_ensures(RecordData::default, (), data),
    ensures
        record.deep_view().preamble == header,
        record.deep_view().key is None,
        record.deep_view().value.len() == 0,
        record.deep_view().headers == 0,
        header.attributes == 0,
        header.timestamp_delta == 0,
        header.offset_delta == 0,
        data.deep_view().len() == 0,
        record.deep_view() == Record::blank(),
        header == RecordHeader::blank(),
{
}

/// A record shows what its fields hold.
pub proof fn record_view_shows_the_fields(record: Record)
    ensures
        record.deep_view().preamble == record.preamble,
        record.deep_view().value == record.value.0@,
        record.deep_view().headers == record.headers,
        record.deep_view().key is None <==> record.key is None,
        record.key matches Some(key) ==> record.deep_view().key == Some(key.0@),
{
}

/// Data is made of bytes and gives them back.
pub proof fn data_gives_back_its_bytes(
    bytes: Vec<u8>,
    data: RecordData,
    read: &[u8],
    len: usize,
)
    requires
        call_ensures(<RecordData as From<Vec<u8>>>::from, (bytes,), data),
        call_ensures(RecordData::as_ref, (&data,), read),
        call_ensures(RecordData::len, (&data,), len),
    ensures
        read@ == bytes@,
        len == bytes@.len(),
{
}

/// The offset delta of a record is the one that was set last; setting it changes nothing else.
pub proof fn offset_delta_is_the_one_set(
    header: &mut RecordHeader,
    delta: Offset,
    read: Offset,
    record: &Record,
    shown: Offset,
)
    requires
        call_ensures(RecordHeader::set_offset_delta, (header, delta), ()),
        call_ensures(RecordHeader::offset_delta, (final(header),), read),
        record.preamble == *final(header),
        call_ensures(Record::get_offset_delta, (record,), shown),
    ensures
        read == delta,
        shown == delta,
        final(header).attributes == old(header).attributes,
        final(header).timestamp_delta == old(header).timestamp_delta,
{
}

} // verus!
