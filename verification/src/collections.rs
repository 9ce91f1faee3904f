use vstd::arithmetic::div_mod::{lemma_mod_multiples_vanish, lemma_small_mod};
use vstd::prelude::*;

use crate::codec::{
    add_sizes, is_sized, lemma_wrapped_is_mod, lemma_wrapped_sum, wrapped, Decoded, Decoder,
    Encoded, Encoder, Error, Lossless, Version,
};
use crate::ints::{i32_is_written, lemma_be_bytes_len, number_4, twos_complement};

verus! {

/// The number that a cast to 32 bits makes of `n`.
pub open spec fn low_i32(n: nat) -> i32 {
    let low = n % 0x1_0000_0000;
    if low < 0x8000_0000 {
        low as i32
    } else {
        (low - 0x1_0000_0000) as i32
    }
}

/// `n` cut down to 32 bits.
pub fn truncate_i32(n: usize) -> (result: i32)
    ensures
        result == low_i32(n as nat),
{
    let wide: u64 = n as u64;
    proof {
        assert(wide % 0x1_0000_0000 < 0x8000_0000 ==> (wide as i32) == wide % 0x1_0000_0000)
            by (bit_vector);
        assert(wide % 0x1_0000_0000 >= 0x8000_0000 ==> (wide as i32) == wide % 0x1_0000_0000
            - 0x1_0000_0000) by (bit_vector);
    }
    wide as i32
}

/// The wire forms of the items, one after the other.
pub open spec fn wire_all<M: Encoder>(items: Seq<M::V>, version: Version) -> Seq<u8>
    decreases items.len(),
{
    if items.len() == 0 {
        Seq::empty()
    } else {
        M::wire(items[0], version) + wire_all::<M>(items.skip(1), version)
    }
}

/// What writing the items one after the other comes to. The first item that cannot be written
/// ends the writing.
pub open spec fn encoded_all<M: Encoder>(items: Seq<M::V>, version: Version) -> Encoded
    decreases items.len(),
{
    if items.len() == 0 {
        Encoded { bytes: Seq::empty(), outcome: Ok(()) }
    } else {
        let first = M::encoded(items[0], version);
        let others = encoded_all::<M>(items.skip(1), version);
        if first.outcome is Err {
            first
        } else {
            Encoded { bytes: first.bytes + others.bytes, outcome: others.outcome }
        }
    }
}

/// The numbers of bytes that the items are said to take, added up.
pub open spec fn size_all<M: Encoder>(items: Seq<M::V>, version: Version) -> nat
    decreases items.len(),
{
    if items.len() == 0 {
        0
    } else {
        M::size(items[0], version) as nat + size_all::<M>(items.skip(1), version)
    }
}

/// Items that take the number of bytes that they are said to take do so together.
pub proof fn all_are_sized<M: Encoder>(start: nat, items: Seq<M::V>, version: Version)
    requires
        forall|i: int| 0 <= i < items.len() ==> is_sized::<M>(#[trigger] items[i], version),
    ensures
        wrapped(start + size_all::<M>(items, version)) == wrapped(
            start + wire_all::<M>(items, version).len(),
        ),
    decreases items.len(),
{
    if items.len() > 0 {
        let tail = items.skip(1);
        let first = M::wire(items[0], version).len();
        assert forall|i: int| 0 <= i < tail.len() implies is_sized::<M>(
            #[trigger] tail[i],
            version,
        ) by {
            assert(tail[i] == items[i + 1]);
        }
        all_are_sized::<M>(start + M::size(items[0], version) as nat, tail, version);
        lemma_wrapped_sum(start + wire_all::<M>(tail, version).len(), first);
        assert(is_sized::<M>(items[0], version));
    }
}

/// All the items can be written.
pub open spec fn all_encode<M: Encoder>(items: Seq<M::V>, version: Version) -> bool {
    forall|i: int| 0 <= i < items.len() ==> M::encoded(#[trigger] items[i], version).outcome is Ok
}

/// What reading `count` items and adding each to those in `start` comes to. The first item
/// that cannot be read ends the reading; those before it are kept.
pub open spec fn read_all<M: Decoder>(
    start: Seq<M::V>,
    count: nat,
    src: Seq<u8>,
    version: Version,
) -> Decoded<Seq<M::V>>
    decreases count,
{
    if count == 0 {
        Decoded { value: start, rest: src, outcome: Ok(()) }
    } else {
        let item = M::read(M::blank(), src, version);
        if item.outcome is Err {
            Decoded { value: start, rest: item.rest, outcome: item.outcome }
        } else {
            read_all::<M>(start.push(item.value), (count - 1) as nat, item.rest, version)
        }
    }
}

/// Items written one after the other are read back in order, after those in `start`.
pub proof fn all_read_back<M: Lossless>(
    start: Seq<M::V>,
    items: Seq<M::V>,
    rest: Seq<u8>,
    version: Version,
)
    requires
        forall|i: int| 0 <= i < items.len() ==> M::representable(#[trigger] items[i]),
    ensures
        read_all::<M>(start, items.len(), wire_all::<M>(items, version) + rest, version) == (
        Decoded { value: start + items, rest, outcome: Ok(()) }),
    decreases items.len(),
{
    let src = wire_all::<M>(items, version) + rest;
    if items.len() == 0 {
        assert(start + items =~= start);
        assert(src =~= rest);
    } else {
        let tail = items.skip(1);
        let after = wire_all::<M>(tail, version) + rest;
        assert(src =~= M::wire(items[0], version) + after);
        M::reads_back(items[0], after, version);
        assert forall|i: int| 0 <= i < tail.len() implies M::representable(#[trigger] tail[i]) by {
            assert(tail[i] == items[i + 1]);
        }
        all_read_back::<M>(start.push(items[0]), tail, rest, version);
        assert(start.push(items[0]) + tail =~= start + items);
    }
}

/// Items written one after the other and cut short after `len` bytes are refused.
pub proof fn all_cut_short_is_refused<M: Lossless>(
    start: Seq<M::V>,
    items: Seq<M::V>,
    len: nat,
    version: Version,
)
    requires
        forall|i: int| 0 <= i < items.len() ==> M::representable(#[trigger] items[i]),
        len < wire_all::<M>(items, version).len(),
    ensures
        read_all::<M>(
            start,
            items.len(),
            wire_all::<M>(items, version).take(len as int),
            version,
        ).outcome == Err::<(), Error>(Error::UnexpectedEof),
    decreases items.len(),
{
    let src = wire_all::<M>(items, version).take(len as int);
    let first = M::wire(items[0], version);
    let tail = items.skip(1);
    if len < first.len() {
        assert(src =~= first.take(len as int));
        M::cut_short_is_refused(items[0], len, version);
    } else {
        let left = wire_all::<M>(tail, version).take(len - first.len());
        assert(src =~= first + left);
        M::reads_back(items[0], left, version);
        assert forall|i: int| 0 <= i < tail.len() implies M::representable(#[trigger] tail[i]) by {
            assert(tail[i] == items[i + 1]);
        }
        all_cut_short_is_refused::<M>(
            start.push(items[0]),
            tail,
            (len - first.len()) as nat,
            version,
        );
    }
}

impl<M: Encoder> Encoder for Vec<M> {
    /// The number of items, cut down to 32 bits, then the items.
    open spec fn wire(v: Seq<M::V>, version: Version) -> Seq<u8> {
        i32::wire(low_i32(v.len()), version) + wire_all::<M>(v, version)
    }

    /// The first item that cannot be written ends the writing.
    open spec fn encoded(v: Seq<M::V>, version: Version) -> Encoded {
        if all_encode::<M>(v, version) {
            Encoded { bytes: Self::wire(v, version), outcome: Ok(()) }
        } else {
            Encoded {
                bytes: i32::wire(low_i32(v.len()), version) + encoded_all::<M>(v, version).bytes,
                outcome: encoded_all::<M>(v, version).outcome,
            }
        }
    }

    open spec fn size(v: Seq<M::V>, version: Version) -> usize {
        wrapped(4 + size_all::<M>(v, version))
    }

    fn write_size(&self, version: Version) -> (size: usize) {
        let ghost items = self.deep_view();
        let ghost mut done: nat = 4;
        let mut size: usize = 4;
        let mut i: usize = 0;
        proof {
            assert(items.skip(0) =~= items);
        }
        while i < self.len()
            invariant
                i <= items.len() == self.len(),
                items == self.deep_view(),
                size == wrapped(done),
                done + size_all::<M>(items.skip(i as int), version) == 4 + size_all::<M>(
                    items,
                    version,
                ),
            decreases self.len() - i,
        {
            let ghost left = items.skip(i as int);
            assert(left.skip(1) =~= items.skip(i + 1));
            assert(left[0] == self[i as int].deep_view());
            let item: usize = self[i].write_size(version);
            proof {
                lemma_wrapped_sum(item as nat, done);
                done = done + item as nat;
            }
            size = add_sizes(item, size);
            i = i + 1;
        }
        size
    }

    fn encode(&self, dest: &mut Vec<u8>, version: Version) -> (result: Result<(), Error>) {
        let ghost items = self.deep_view();
        let ghost count = i32::wire(low_i32(items.len()), version);
        let len: i32 = truncate_i32(self.len());
        len.encode(dest, version)?;
        let mut i: usize = 0;
        proof {
            assert(items.skip(0) =~= items);
            assert(dest@ + wire_all::<M>(items, version) =~= old(dest)@ + Self::wire(items, version));
            assert(dest@ + encoded_all::<M>(items, version).bytes =~= old(dest)@ + (count
                + encoded_all::<M>(items, version).bytes));
        }
        while i < self.len()
            invariant
                i <= items.len() == self.len(),
                items == self.deep_view(),
                count == i32::wire(low_i32(items.len()), version),
                forall|j: int|
                    0 <= j < i ==> M::encoded(#[trigger] items[j], version).outcome is Ok,
                encoded_all::<M>(items, version).outcome == encoded_all::<M>(
                    items.skip(i as int),
                    version,
                ).outcome,
                dest@ + encoded_all::<M>(items.skip(i as int), version).bytes == old(dest)@ + (count
                    + encoded_all::<M>(items, version).bytes),
                dest@ + wire_all::<M>(items.skip(i as int), version) == old(dest)@ + Self::wire(
                    items,
                    version,
                ),
            decreases self.len() - i,
        {
            let ghost before = dest@;
            let ghost left = items.skip(i as int);
            assert(left.skip(1) =~= items.skip(i + 1));
            assert(left[0] == self[i as int].deep_view());
            assert(items[i as int] == left[0]);
            let result = self[i].encode(dest, version);
            if result.is_err() {
                assert(!all_encode::<M>(items, version));
                return result;
            }
            assert(dest@ + wire_all::<M>(items.skip(i + 1), version) =~= before + wire_all::<M>(
                left,
                version,
            ));
            assert(dest@ + encoded_all::<M>(items.skip(i + 1), version).bytes =~= before
                + encoded_all::<M>(left, version).bytes);
            i = i + 1;
        }
        assert(dest@ =~= old(dest)@ + Self::wire(items, version));
        Ok(())
    }
}

impl<M: Decoder> Decoder for Vec<M> {
    open spec fn blank() -> Seq<M::V> {
        Seq::empty()
    }

    /// Items that are there already stay in front of those that are read. A count below one
    /// stands for no items.
    open spec fn read(start: Seq<M::V>, src: Seq<u8>, version: Version) -> Decoded<Seq<M::V>> {
        let len = i32::read(0, src, version);
        if len.outcome is Err {
            Decoded { value: start, rest: len.rest, outcome: len.outcome }
        } else if len.value < 1 {
            Decoded { value: start, rest: len.rest, outcome: Ok(()) }
        } else {
            read_all::<M>(start, len.value as nat, len.rest, version)
        }
    }

    proof fn default_is_blank(value: Vec<M>) {
        assert(value.deep_view() =~= Seq::empty());
    }

    fn decode(&mut self, src: &mut &[u8], version: Version) -> (result: Result<(), Error>) {
        let ghost start = self.deep_view();
        let mut len: i32 = 0;
        match len.decode(src, version) {
            Ok(()) => {},
            Err(error) => return Err(error),
        }
        if len < 1 {
            return Ok(());
        }
        let ghost behind = (*src)@;
        let mut i: i32 = 0;
        while i < len
            invariant
                0 <= i <= len,
                read_all::<M>(self.deep_view(), (len - i) as nat, (*src)@, version) == read_all::<
                    M,
                >(start, len as nat, behind, version),
                Self::read(start, (*old(src))@, version) == read_all::<M>(
                    start,
                    len as nat,
                    behind,
                    version,
                ),
                start == old(self).deep_view(),
            decreases len - i,
        {
            let ghost before = self.deep_view();
            let mut item = M::default();
            proof {
                M::default_is_blank(item);
            }
            match item.decode(src, version) {
                Ok(()) => {},
                Err(error) => return Err(error),
            }
            self.push(item);
            assert(self.deep_view() =~= before.push(item.deep_view()));
            i = i + 1;
        }
        Ok(())
    }
}

impl<M: Lossless> Lossless for Vec<M> {
    /// As many items as a 32-bit count can tell.
    open spec fn representable(v: Seq<M::V>) -> bool {
        &&& v.len() <= i32::MAX
        &&& forall|i: int| 0 <= i < v.len() ==> M::representable(#[trigger] v[i])
    }

    proof fn reads_back(v: Seq<M::V>, rest: Seq<u8>, version: Version) {
        let src = Self::wire(v, version) + rest;
        let items = wire_all::<M>(v, version) + rest;
        let len = low_i32(v.len());
        assert(src =~= i32::wire(len, version) + items);
        i32::reads_back(len, items, version);
        all_read_back::<M>(Seq::empty(), v, rest, version);
        assert(Seq::<M::V>::empty() + v =~= v);
        if v.len() == 0 {
            assert(items =~= rest);
        }
    }

    proof fn cut_short_is_refused(v: Seq<M::V>, len: nat, version: Version) {
        let count = low_i32(v.len());
        let src = Self::wire(v, version).take(len as int);
        lemma_be_bytes_len(twos_complement(count as int, 4), 4);
        if len >= 4 {
            let left = wire_all::<M>(v, version).take(len - 4);
            assert(src =~= i32::wire(count, version) + left);
            i32::reads_back(count, left, version);
            all_cut_short_is_refused::<M>(Seq::empty(), v, (len - 4) as nat, version);
        }
    }
}

impl<M: Encoder> Encoder for Option<M> {
    /// Whether there is a value, then the value.
    open spec fn wire(v: Option<M::V>, version: Version) -> Seq<u8> {
        match v {
            Some(value) => bool::wire(true, version) + M::wire(value, version),
            None => bool::wire(false, version),
        }
    }

    open spec fn encoded(v: Option<M::V>, version: Version) -> Encoded {
        match v {
            Some(value) => Encoded {
                bytes: bool::wire(true, version) + M::encoded(value, version).bytes,
                outcome: M::encoded(value, version).outcome,
            },
            None => Encoded { bytes: bool::wire(false, version), outcome: Ok(()) },
        }
    }

    open spec fn size(v: Option<M::V>, version: Version) -> usize {
        match v {
            Some(value) => wrapped(1 + M::size(value, version) as nat),
            None => 1,
        }
    }

    fn write_size(&self, version: Version) -> (size: usize) {
        match self {
            Some(value) => add_sizes(1, value.write_size(version)),
            None => 1,
        }
    }

    fn encode(&self, dest: &mut Vec<u8>, version: Version) -> (result: Result<(), Error>) {
        match self {
            Some(value) => {
                true.encode(dest, version)?;
                let result = value.encode(dest, version);
                assert(dest@ =~= old(dest)@ + Self::encoded(self.deep_view(), version).bytes);
                result
            },
            None => false.encode(dest, version),
        }
    }
}

impl<M: Decoder> Decoder for Option<M> {
    open spec fn blank() -> Option<M::V> {
        None
    }

    open spec fn read(start: Option<M::V>, src: Seq<u8>, version: Version) -> Decoded<Option<M::V>> {
        let some = bool::read(false, src, version);
        if some.outcome is Err {
            Decoded { value: start, rest: some.rest, outcome: some.outcome }
        } else if !some.value {
            Decoded { value: None, rest: some.rest, outcome: Ok(()) }
        } else {
            let value = M::read(M::blank(), some.rest, version);
            Decoded {
                value: if value.outcome is Ok { Some(value.value) } else { start },
                rest: value.rest,
                outcome: value.outcome,
            }
        }
    }

    proof fn default_is_blank(value: Option<M>) {
    }

    fn decode(&mut self, src: &mut &[u8], version: Version) -> (result: Result<(), Error>) {
        let mut some: bool = false;
        match some.decode(src, version) {
            Ok(()) => {},
            Err(error) => return Err(error),
        }
        if !some {
            *self = None;
            return Ok(());
        }
        let mut value = M::default();
        proof {
            M::default_is_blank(value);
        }
        let result = value.decode(src, version);
        if result.is_ok() {
            *self = Some(value);
        }
        result
    }
}

impl<M: Lossless> Lossless for Option<M> {
    open spec fn representable(v: Option<M::V>) -> bool {
        v matches Some(value) ==> M::representable(value)
    }

    proof fn reads_back(v: Option<M::V>, rest: Seq<u8>, version: Version) {
        let src = Self::wire(v, version) + rest;
        match v {
            Some(value) => {
                let behind = M::wire(value, version) + rest;
                assert(src =~= bool::wire(true, version) + behind);
                bool::reads_back(true, behind, version);
                M::reads_back(value, rest, version);
            },
            None => {
                bool::reads_back(false, rest, version);
            },
        }
    }

    proof fn cut_short_is_refused(v: Option<M::V>, len: nat, version: Version) {
        let src = Self::wire(v, version).take(len as int);
        if let Some(value) = v {
            if len >= 1 {
                let left = M::wire(value, version).take(len - 1);
                assert(src =~= bool::wire(true, version) + left);
                bool::reads_back(true, left, version);
                M::cut_short_is_refused(value, (len - 1) as nat, version);
            }
        }
    }
}

/// A number cut down to 32 bits differs from it by a multiple of 2 to the 32.
pub proof fn cut_down_keeps_low_bits(n: usize, result: i32)
    requires
        call_ensures(truncate_i32, (n,), result),
    ensures
        (n - result) % 0x1_0000_0000 == 0,
        low_i32(n as nat) == result,
{
}

/// A list is written as the number of its items, in four bytes, and the items one behind the
/// other: an item by itself is written as it is, and what two lists hold follows on in the list
/// of both.
pub proof fn list_is_written<M: Encoder>(
    first: Seq<M::V>,
    item: M::V,
    second: Seq<M::V>,
    version: Version,
)
    ensures
        ({
            let bytes = Vec::<M>::wire(first, version);
            &&& bytes.len() >= 4
            &&& number_4(bytes, 0) == first.len() as int % 0x1_0000_0000
            &&& first.len() == 0 ==> bytes.len() == 4
        }),
        Vec::<M>::wire(seq![item], version).skip(4) == M::wire(item, version),
        Vec::<M>::wire(first + second, version).skip(4) == Vec::<M>::wire(first, version).skip(4)
            + Vec::<M>::wire(second, version).skip(4),
{
    i32_is_written(low_i32(first.len()), wire_all::<M>(first, version), version);
    i32_is_written(low_i32(1), Seq::empty(), version);
    i32_is_written(low_i32(second.len()), Seq::empty(), version);
    i32_is_written(low_i32((first + second).len()), Seq::empty(), version);
    reveal_with_fuel(wire_all, 2);
    assert(seq![item].skip(1) =~= Seq::empty());
    assert(M::wire(item, version) + Seq::<u8>::empty() =~= M::wire(item, version));
    assert(Vec::<M>::wire(seq![item], version).skip(4) =~= M::wire(item, version));
    assert(Vec::<M>::wire(first, version).skip(4) =~= wire_all::<M>(first, version));
    assert(Vec::<M>::wire(second, version).skip(4) =~= wire_all::<M>(second, version));
    assert(Vec::<M>::wire(first + second, version).skip(4) =~= wire_all::<M>(
        first + second,
        version,
    ));
    lemma_wire_all_follows_on::<M>(first, second, version);
}

proof fn lemma_wire_all_follows_on<M: Encoder>(
    first: Seq<M::V>,
    second: Seq<M::V>,
    version: Version,
)
    ensures
        wire_all::<M>(first + second, version) == wire_all::<M>(first, version) + wire_all::<M>(
            second,
            version,
        ),
    decreases first.len(),
{
    if first.len() == 0 {
        assert(first + second =~= second);
    } else {
        lemma_wire_all_follows_on::<M>(first.skip(1), second, version);
        assert((first + second).skip(1) =~= first.skip(1) + second);
    }
}

/// Where all items of a list can be written, so can the list. Otherwise the list is written up to
/// the first item that cannot, with the number of all its items in front, and fails as that item
/// does.
pub proof fn list_is_written_as_far_as_it_can<M: Encoder>(
    items: Seq<M::V>,
    failed: int,
    version: Version,
)
    requires
        0 <= failed <= items.len(),
        forall|i: int|
            0 <= i < failed ==> {
                &&& M::encoded(#[trigger] items[i], version).outcome is Ok
                &&& M::encoded(items[i], version).bytes == M::wire(items[i], version)
            },
        failed < items.len() ==> M::encoded(items[failed], version).outcome is Err,
    ensures
        ({
            let encoded = Vec::<M>::encoded(items, version);
            let whole = Vec::<M>::wire(items, version);
            let before = Vec::<M>::wire(items.take(failed), version);
            let last = M::encoded(items[failed], version);
            if failed == items.len() {
                encoded.outcome is Ok && encoded.bytes == whole
            } else {
                &&& encoded.outcome == last.outcome
                &&& encoded.bytes == whole.take(4) + before.skip(4) + last.bytes
            }
        }),
{
    i32_is_written(low_i32(items.len()), Seq::empty(), version);
    i32_is_written(low_i32(items.take(failed).len()), Seq::empty(), version);
    if failed < items.len() {
        lemma_encoded_up_to::<M>(items, failed, version);
        assert(!all_encode::<M>(items, version));
        assert(Vec::<M>::wire(items, version).take(4) =~= i32::wire(
            low_i32(items.len()),
            version,
        ));
        assert(Vec::<M>::wire(items.take(failed), version).skip(4) =~= wire_all::<M>(
            items.take(failed),
            version,
        ));
        assert(Vec::<M>::encoded(items, version).bytes =~= Vec::<M>::wire(items, version).take(4)
            + Vec::<M>::wire(items.take(failed), version).skip(4) + M::encoded(
            items[failed],
            version,
        ).bytes);
    }
}

proof fn lemma_encoded_up_to<M: Encoder>(items: Seq<M::V>, failed: int, version: Version)
    requires
        0 <= failed < items.len(),
        forall|i: int|
            0 <= i < failed ==> {
                &&& M::encoded(#[trigger] items[i], version).outcome is Ok
                &&& M::encoded(items[i], version).bytes == M::wire(items[i], version)
            },
        M::encoded(items[failed], version).outcome is Err,
    ensures
        encoded_all::<M>(items, version).outcome == M::encoded(items[failed], version).outcome,
        encoded_all::<M>(items, version).bytes == wire_all::<M>(items.take(failed), version)
            + M::encoded(items[failed], version).bytes,
    decreases failed,
{
    if failed == 0 {
        assert(encoded_all::<M>(items, version).bytes =~= wire_all::<M>(items.take(0), version)
            + M::encoded(items[0], version).bytes);
    } else {
        let tail = items.skip(1);
        assert forall|i: int| 0 <= i < failed - 1 implies {
            &&& M::encoded(#[trigger] tail[i], version).outcome is Ok
            &&& M::encoded(tail[i], version).bytes == M::wire(tail[i], version)
        } by {
            assert(tail[i] == items[i + 1]);
        }
        assert(M::encoded(items[0], version).outcome is Ok);
        lemma_encoded_up_to::<M>(tail, failed - 1, version);
        assert(items.take(failed).skip(1) =~= tail.take(failed - 1));
        assert(encoded_all::<M>(items, version).bytes =~= wire_all::<M>(
            items.take(failed),
            version,
        ) + M::encoded(items[failed], version).bytes);
    }
}

/// A list takes four bytes and those that its items are said to take; the sum wraps around.
pub proof fn list_size_adds_up<M: Encoder>(items: Seq<M::V>, item: M::V, version: Version)
    ensures
        items.len() == 0 ==> Vec::<M>::size(items, version) == 4,
        ({
            let sum = Vec::<M>::size(items, version) + M::size(item, version);
            Vec::<M>::size(items.push(item), version) == if sum <= usize::MAX {
                sum
            } else {
                sum - usize::MAX - 1
            }
        }),
{
    let size = M::size(item, version) as nat;
    lemma_size_all_push::<M>(items, item, version);
    lemma_wrapped_sum(size, 4 + size_all::<M>(items, version));
    let sum = (Vec::<M>::size(items, version) + M::size(item, version)) as nat;
    lemma_wrapped_is_mod(sum);
    if sum > usize::MAX {
        let m = usize::MAX as int + 1;
        lemma_mod_multiples_vanish(1, sum - m, m);
        lemma_small_mod((sum - m) as nat, m as nat);
    }
}

proof fn lemma_size_all_push<M: Encoder>(items: Seq<M::V>, item: M::V, version: Version)
    ensures
        size_all::<M>(items.push(item), version) == size_all::<M>(items, version) + M::size(
            item,
            version,
        ),
    decreases items.len(),
{
    reveal_with_fuel(size_all, 2);
    if items.len() == 0 {
        assert(items.push(item).skip(1) =~= Seq::empty());
    } else {
        lemma_size_all_push::<M>(items.skip(1), item, version);
        assert(items.push(item).skip(1) =~= items.skip(1).push(item));
    }
}

/// A list is read behind its number of items, item by item, each behind those that are there. A
/// number below one stands for no items. An item that cannot be read ends the reading and is
/// reported; the items before it are kept.
pub proof fn list_is_read<M: Decoder>(
    start: Seq<M::V>,
    count: i32,
    src: Seq<u8>,
    version: Version,
)
    ensures
        Vec::<M>::blank().len() == 0,
        ({
            let read = Vec::<M>::read(start, i32::wire(count, version) + src, version);
            let item = M::read(M::blank(), src, version);
            if count < 1 {
                read.value == start && read.rest == src && read.outcome is Ok
            } else if item.outcome is Err {
                read.value == start && read.rest == item.rest && read.outcome == item.outcome
            } else if count == 1 {
                read.value == start.push(item.value) && read.rest == item.rest && read.outcome is Ok
            } else {
                read == Vec::<M>::read(
                    start.push(item.value),
                    i32::wire((count - 1) as i32, version) + item.rest,
                    version,
                )
            }
        }),
        src.len() < 4 ==> Vec::<M>::read(start, src, version) == (Decoded {
            value: start,
            rest: src,
            outcome: Err(Error::UnexpectedEof),
        }),
{
    i32::reads_back(count, src, version);
    if count >= 1 {
        let item = M::read(M::blank(), src, version);
        reveal_with_fuel(read_all, 2);
        if count > 1 {
            i32::reads_back((count - 1) as i32, item.rest, version);
        }
    }
}

/// An optional value is written as a byte that is 1 in front of a value and 0 where there is
/// none.
pub proof fn option_is_written<M: Encoder>(value: M::V, version: Version)
    ensures
        ({
            let bytes = Option::<M>::wire(Some(value), version);
            let encoded = Option::<M>::encoded(Some(value), version);
            &&& bytes.len() == 1 + M::wire(value, version).len()
            &&& bytes[0] == 1
            &&& bytes.skip(1) == M::wire(value, version)
            &&& encoded.outcome == M::encoded(value, version).outcome
            &&& encoded.bytes[0] == 1
            &&& encoded.bytes.len() == 1 + M::encoded(value, version).bytes.len()
            &&& encoded.bytes.skip(1) == M::encoded(value, version).bytes
        }),
        Option::<M>::wire(None, version) == seq![0u8],
        Option::<M>::encoded(None, version) == (Encoded { bytes: seq![0u8], outcome: Ok(()) }),
        Option::<M>::size(None, version) == 1,
        Option::<M>::size(Some(value), version) == if M::size(value, version) < usize::MAX {
            M::size(value, version) + 1
        } else {
            0
        },
{
    assert(Option::<M>::wire(Some(value), version).skip(1) =~= M::wire(value, version));
    assert(Option::<M>::encoded(Some(value), version).bytes.skip(1) =~= M::encoded(
        value,
        version,
    ).bytes);
    let m = usize::MAX as int + 1;
    lemma_wrapped_is_mod(1 + M::size(value, version) as nat);
    lemma_mod_multiples_vanish(1, 0, m);
    lemma_small_mod(0, m as nat);
}

/// An optional value is read behind a byte that is 1, and there is none behind a byte that is 0.
/// Whatever cannot be read leaves the value that is there.
pub proof fn option_is_read<M: Decoder>(
    start: Option<M::V>,
    byte: u8,
    src: Seq<u8>,
    version: Version,
)
    ensures
        Option::<M>::blank() is None,
        ({
            let read = Option::<M>::read(start, seq![byte] + src, version);
            let value = M::read(M::blank(), src, version);
            &&& byte == 0 ==> read.value is None && read.rest == src && read.outcome is Ok
            &&& byte == 1 ==> read.rest == value.rest && read.outcome == value.outcome
            &&& byte == 1 && value.outcome is Ok ==> read.value == Some(value.value)
            &&& byte == 1 && value.outcome is Err ==> read.value == start
            &&& byte > 1 ==> read.value == start && read.rest == src && read.outcome == Err::<
                (),
                Error,
            >(Error::InvalidData)
        }),
        Option::<M>::read(start, Seq::empty(), version) == (Decoded {
            value: start,
            rest: Seq::empty(),
            outcome: Err(Error::UnexpectedEof),
        }),
{
    assert((seq![byte] + src).skip(1) =~= src);
}

} // verus!
