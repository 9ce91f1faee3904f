use vstd::prelude::*;
use vstd::slice::slice_subrange;

use crate::codec::{Decoded, Decoder, Encoded, Encoder, Error, Lossless, Version};

verus! {

/// The number of values that `width` bytes can hold.
pub open spec fn span(width: nat) -> nat
    decreases width,
{
    if width == 0 {
        1
    } else {
        256 * span((width - 1) as nat)
    }
}

/// `n` in base 256 with `width` digits, the most significant first.
pub open spec fn be_bytes(n: nat, width: nat) -> Seq<u8>
    decreases width,
{
    if width == 0 {
        Seq::empty()
    } else {
        be_bytes(n / 256, (width - 1) as nat).push((n % 256) as u8)
    }
}

/// The number whose base-256 digits are `s`, the most significant first.
pub open spec fn be_value(s: Seq<u8>) -> nat
    decreases s.len(),
{
    if s.len() == 0 {
        0
    } else {
        256 * be_value(s.drop_last()) + s.last() as nat
    }
}

/// The unsigned number that has the two's complement bits of `n` in `width` bytes.
pub open spec fn twos_complement(n: int, width: nat) -> nat {
    if n < 0 {
        (n + span(width)) as nat
    } else {
        n as nat
    }
}

/// The signed number whose two's complement bits in `width` bytes are those of `n`.
pub open spec fn signed(n: nat, width: nat) -> int {
    if 2 * n < span(width) {
        n as int
    } else {
        n - span(width)
    }
}

pub proof fn lemma_spans()
    ensures
        span(0) == 1,
        span(1) == 0x100,
        span(2) == 0x1_0000,
        span(4) == 0x1_0000_0000,
        span(8) == 0x1_0000_0000_0000_0000,
{
    reveal_with_fuel(span, 9);
}

pub proof fn lemma_be_bytes_len(n: nat, width: nat)
    ensures
        be_bytes(n, width).len() == width,
    decreases width,
{
    if width > 0 {
        lemma_be_bytes_len(n / 256, (width - 1) as nat);
    }
}

/// A number that fits in `width` bytes is the value of its digits.
pub proof fn lemma_be_value_of_bytes(n: nat, width: nat)
    requires
        n < span(width),
    ensures
        be_value(be_bytes(n, width)) == n,
    decreases width,
{
    if width > 0 {
        lemma_be_value_of_bytes(n / 256, (width - 1) as nat);
        let digits = be_bytes(n / 256, (width - 1) as nat);
        assert(be_bytes(n, width).drop_last() =~= digits);
    }
}

pub proof fn lemma_be_value_bound(s: Seq<u8>)
    ensures
        be_value(s) < span(s.len()),
    decreases s.len(),
{
    if s.len() > 0 {
        lemma_be_value_bound(s.drop_last());
    }
}

/// Appends the `width` base-256 digits of `n` to `dest`.
fn put_be(dest: &mut Vec<u8>, n: u64, width: usize)
    ensures
        final(dest)@ == old(dest)@ + be_bytes(n as nat, width as nat),
    decreases width,
{
    if width > 0 {
        put_be(dest, n / 256, width - 1);
        dest.push((n % 256) as u8);
    }
}

/// The number whose base-256 digits are `src`.
fn get_be(src: &[u8]) -> (n: u64)
    requires
        src@.len() <= 8,
    ensures
        n == be_value(src@),
        n < span(src@.len()),
{
    let mut n: u64 = 0;
    let mut i: usize = 0;
    while i < src.len()
        invariant
            i <= src@.len() <= 8,
            n == be_value(src@.take(i as int)),
        decreases src@.len() - i,
    {
        proof {
            let longer = src@.take(i + 1);
            assert(longer.drop_last() =~= src@.take(i as int));
            lemma_be_value_bound(longer);
            reveal_with_fuel(span, 9);
        }
        n = 256 * n + src[i] as u64;
        i = i + 1;
    }
    proof {
        assert(src@.take(i as int) =~= src@);
        lemma_be_value_bound(src@);
    }
    n
}

/// Takes `width` bytes off the front of `src` as a number; leaves a shorter `src` alone.
fn take_be(src: &mut &[u8], width: usize) -> (result: Result<u64, Error>)
    requires
        width <= 8,
    ensures
        match result {
            Ok(n) => {
                &&& (*old(src))@.len() >= width
                &&& n == be_value((*old(src))@.take(width as int))
                &&& n < span(width as nat)
                &&& (*final(src))@ == (*old(src))@.skip(width as int)
            },
            Err(error) => {
                &&& (*old(src))@.len() < width
                &&& error == Error::UnexpectedEof
                &&& (*final(src))@ == (*old(src))@
            },
        },
{
    let all: &[u8] = *src;
    if all.len() < width {
        return Err(Error::UnexpectedEof);
    }
    let n: u64 = get_be(slice_subrange(all, 0, width));
    *src = slice_subrange(all, width, all.len());
    Ok(n)
}

impl Encoder for i8 {
    /// The two's complement of the number in 1 byte.
    open spec fn wire(v: i8, version: Version) -> Seq<u8> {
        be_bytes(twos_complement(v as int, 1), 1)
    }

    open spec fn encoded(v: i8, version: Version) -> Encoded {
        Encoded { bytes: Self::wire(v, version), outcome: Ok(()) }
    }

    open spec fn size(v: i8, version: Version) -> usize {
        1
    }

    fn write_size(&self, version: Version) -> (size: usize) {
        1
    }

    fn encode(&self, dest: &mut Vec<u8>, version: Version) -> (result: Result<(), Error>) {
        let n: i8 = *self;
        proof {
            lemma_spans();
            assert(n < 0 ==> (n as u8) == n + 0x100) by (bit_vector);
        }
        put_be(dest, (n as u8) as u64, 1);
        Ok(())
    }
}

impl Decoder for i8 {
    open spec fn blank() -> i8 {
        0
    }

    open spec fn read(start: i8, src: Seq<u8>, version: Version) -> Decoded<i8> {
        if src.len() < 1 {
            Decoded { value: start, rest: src, outcome: Err(Error::UnexpectedEof) }
        } else {
            Decoded {
                value: signed(be_value(src.take(1)), 1) as i8,
                rest: src.skip(1),
                outcome: Ok(()),
            }
        }
    }

    proof fn default_is_blank(value: i8) {
    }

    fn decode(&mut self, src: &mut &[u8], version: Version) -> (result: Result<(), Error>) {
        match take_be(src, 1) {
            Ok(n) => {
                proof {
                    lemma_spans();
                    assert(n < 0x80 ==> ((n as u8) as i8) == n) by (bit_vector);
                    assert(0x80 <= n < 0x100 ==> ((n as u8) as i8) == n - 0x100) by (bit_vector);
                }
                *self = (n as u8) as i8;
                Ok(())
            },
            Err(error) => Err(error),
        }
    }
}

impl Lossless for i8 {
    open spec fn representable(v: i8) -> bool {
        true
    }

    proof fn reads_back(v: i8, rest: Seq<u8>, version: Version) {
        let n = twos_complement(v as int, 1);
        lemma_spans();
        lemma_be_bytes_len(n, 1);
        lemma_be_value_of_bytes(n, 1);
        let src = Self::wire(v, version) + rest;
        assert(src.take(1) =~= be_bytes(n, 1));
        assert(src.skip(1) =~= rest);
    }

    proof fn cut_short_is_refused(v: i8, len: nat, version: Version) {
        lemma_be_bytes_len(twos_complement(v as int, 1), 1);
    }
}

impl Encoder for i16 {
    /// The two's complement of the number in 2 bytes.
    open spec fn wire(v: i16, version: Version) -> Seq<u8> {
        be_bytes(twos_complement(v as int, 2), 2)
    }

    open spec fn encoded(v: i16, version: Version) -> Encoded {
        Encoded { bytes: Self::wire(v, version), outcome: Ok(()) }
    }

    open spec fn size(v: i16, version: Version) -> usize {
        2
    }

    fn write_size(&self, version: Version) -> (size: usize) {
        2
    }

    fn encode(&self, dest: &mut Vec<u8>, version: Version) -> (result: Result<(), Error>) {
        let n: i16 = *self;
        proof {
            lemma_spans();
            assert(n < 0 ==> (n as u16) == n + 0x1_0000) by (bit_vector);
        }
        put_be(dest, (n as u16) as u64, 2);
        Ok(())
    }
}

impl Decoder for i16 {
    open spec fn blank() -> i16 {
        0
    }

    open spec fn read(start: i16, src: Seq<u8>, version: Version) -> Decoded<i16> {
        if src.len() < 2 {
            Decoded { value: start, rest: src, outcome: Err(Error::UnexpectedEof) }
        } else {
            Decoded {
                value: signed(be_value(src.take(2)), 2) as i16,
                rest: src.skip(2),
                outcome: Ok(()),
            }
        }
    }

    proof fn default_is_blank(value: i16) {
    }

    fn decode(&mut self, src: &mut &[u8], version: Version) -> (result: Result<(), Error>) {
        match take_be(src, 2) {
            Ok(n) => {
                proof {
                    lemma_spans();
                    assert(n < 0x8000 ==> ((n as u16) as i16) == n) by (bit_vector);
                    assert(0x8000 <= n < 0x1_0000 ==> ((n as u16) as i16) == n - 0x1_0000) by (bit_vector);
                }
                *self = (n as u16) as i16;
                Ok(())
            },
            Err(error) => Err(error),
        }
    }
}

impl Lossless for i16 {
    open spec fn representable(v: i16) -> bool {
        true
    }

    proof fn reads_back(v: i16, rest: Seq<u8>, version: Version) {
        let n = twos_complement(v as int, 2);
        lemma_spans();
        lemma_be_bytes_len(n, 2);
        lemma_be_value_of_bytes(n, 2);
        let src = Self::wire(v, version) + rest;
        assert(src.take(2) =~= be_bytes(n, 2));
        assert(src.skip(2) =~= rest);
    }

    proof fn cut_short_is_refused(v: i16, len: nat, version: Version) {
        lemma_be_bytes_len(twos_complement(v as int, 2), 2);
    }
}

impl Encoder for i32 {
    /// The two's complement of the number in 4 bytes.
    open spec fn wire(v: i32, version: Version) -> Seq<u8> {
        be_bytes(twos_complement(v as int, 4), 4)
    }

    open spec fn encoded(v: i32, version: Version) -> Encoded {
        Encoded { bytes: Self::wire(v, version), outcome: Ok(()) }
    }

    open spec fn size(v: i32, version: Version) -> usize {
        4
    }

    fn write_size(&self, version: Version) -> (size: usize) {
        4
    }

    fn encode(&self, dest: &mut Vec<u8>, version: Version) -> (result: Result<(), Error>) {
        let n: i32 = *self;
        proof {
            lemma_spans();
            assert(n < 0 ==> (n as u32) == n + 0x1_0000_0000) by (bit_vector);
        }
        put_be(dest, (n as u32) as u64, 4);
        Ok(())
    }
}

impl Decoder for i32 {
    open spec fn blank() -> i32 {
        0
    }

    open spec fn read(start: i32, src: Seq<u8>, version: Version) -> Decoded<i32> {
        if src.len() < 4 {
            Decoded { value: start, rest: src, outcome: Err(Error::UnexpectedEof) }
        } else {
            Decoded {
                value: signed(be_value(src.take(4)), 4) as i32,
                rest: src.skip(4),
                outcome: Ok(()),
            }
        }
    }

    proof fn default_is_blank(value: i32) {
    }

    fn decode(&mut self, src: &mut &[u8], version: Version) -> (result: Result<(), Error>) {
        match take_be(src, 4) {
            Ok(n) => {
                proof {
                    lemma_spans();
                    assert(n < 0x8000_0000 ==> ((n as u32) as i32) == n) by (bit_vector);
                    assert(0x8000_0000 <= n < 0x1_0000_0000 ==> ((n as u32) as i32) == n - 0x1_0000_0000) by (bit_vector);
                }
                *self = (n as u32) as i32;
                Ok(())
            },
            Err(error) => Err(error),
        }
    }
}

impl Lossless for i32 {
    open spec fn representable(v: i32) -> bool {
        true
    }

    proof fn reads_back(v: i32, rest: Seq<u8>, version: Version) {
        let n = twos_complement(v as int, 4);
        lemma_spans();
        lemma_be_bytes_len(n, 4);
        lemma_be_value_of_bytes(n, 4);
        let src = Self::wire(v, version) + rest;
        assert(src.take(4) =~= be_bytes(n, 4));
        assert(src.skip(4) =~= rest);
    }

    proof fn cut_short_is_refused(v: i32, len: nat, version: Version) {
        lemma_be_bytes_len(twos_complement(v as int, 4), 4);
    }
}

impl Encoder for i64 {
    /// The two's complement of the number in 8 bytes.
    open spec fn wire(v: i64, version: Version) -> Seq<u8> {
        be_bytes(twos_complement(v as int, 8), 8)
    }

    open spec fn encoded(v: i64, version: Version) -> Encoded {
        Encoded { bytes: Self::wire(v, version), outcome: Ok(()) }
    }

    open spec fn size(v: i64, version: Version) -> usize {
        8
    }

    fn write_size(&self, version: Version) -> (size: usize) {
        8
    }

    fn encode(&self, dest: &mut Vec<u8>, version: Version) -> (result: Result<(), Error>) {
        let n: i64 = *self;
        proof {
            lemma_spans();
            assert(n < 0 ==> (n as u64) == n + 0x1_0000_0000_0000_0000) by (bit_vector);
        }
        put_be(dest, n as u64, 8);
        Ok(())
    }
}

impl Decoder for i64 {
    open spec fn blank() -> i64 {
        0
    }

    open spec fn read(start: i64, src: Seq<u8>, version: Version) -> Decoded<i64> {
        if src.len() < 8 {
            Decoded { value: start, rest: src, outcome: Err(Error::UnexpectedEof) }
        } else {
            Decoded {
                value: signed(be_value(src.take(8)), 8) as i64,
                rest: src.skip(8),
                outcome: Ok(()),
            }
        }
    }

    proof fn default_is_blank(value: i64) {
    }

    fn decode(&mut self, src: &mut &[u8], version: Version) -> (result: Result<(), Error>) {
        match take_be(src, 8) {
            Ok(n) => {
                proof {
                    lemma_spans();
                    assert(n < 0x8000_0000_0000_0000 ==> (n as i64) == n) by (bit_vector);
                    assert(0x8000_0000_0000_0000 <= n < 0x1_0000_0000_0000_0000 ==> (n as i64) == n - 0x1_0000_0000_0000_0000) by (bit_vector);
                }
                *self = n as i64;
                Ok(())
            },
            Err(error) => Err(error),
        }
    }
}

impl Lossless for i64 {
    open spec fn representable(v: i64) -> bool {
        true
    }

    proof fn reads_back(v: i64, rest: Seq<u8>, version: Version) {
        let n = twos_complement(v as int, 8);
        lemma_spans();
        lemma_be_bytes_len(n, 8);
        lemma_be_value_of_bytes(n, 8);
        let src = Self::wire(v, version) + rest;
        assert(src.take(8) =~= be_bytes(n, 8));
        assert(src.skip(8) =~= rest);
    }

    proof fn cut_short_is_refused(v: i64, len: nat, version: Version) {
        lemma_be_bytes_len(twos_complement(v as int, 8), 8);
    }
}

impl Encoder for u32 {
    /// The number in 4 bytes.
    open spec fn wire(v: u32, version: Version) -> Seq<u8> {
        be_bytes(v as nat, 4)
    }

    open spec fn encoded(v: u32, version: Version) -> Encoded {
        Encoded { bytes: Self::wire(v, version), outcome: Ok(()) }
    }

    open spec fn size(v: u32, version: Version) -> usize {
        4
    }

    fn write_size(&self, version: Version) -> (size: usize) {
        4
    }

    fn encode(&self, dest: &mut Vec<u8>, version: Version) -> (result: Result<(), Error>) {
        put_be(dest, *self as u64, 4);
        Ok(())
    }
}

impl Decoder for u32 {
    open spec fn blank() -> u32 {
        0
    }

    open spec fn read(start: u32, src: Seq<u8>, version: Version) -> Decoded<u32> {
        if src.len() < 4 {
            Decoded { value: start, rest: src, outcome: Err(Error::UnexpectedEof) }
        } else {
            Decoded { value: be_value(src.take(4)) as u32, rest: src.skip(4), outcome: Ok(()) }
        }
    }

    proof fn default_is_blank(value: u32) {
    }

    fn decode(&mut self, src: &mut &[u8], version: Version) -> (result: Result<(), Error>) {
        match take_be(src, 4) {
            Ok(n) => {
                proof {
                    lemma_spans();
                }
                *self = n as u32;
                Ok(())
            },
            Err(error) => Err(error),
        }
    }
}

impl Lossless for u32 {
    open spec fn representable(v: u32) -> bool {
        true
    }

    proof fn reads_back(v: u32, rest: Seq<u8>, version: Version) {
        lemma_spans();
        lemma_be_bytes_len(v as nat, 4);
        lemma_be_value_of_bytes(v as nat, 4);
        let src = Self::wire(v, version) + rest;
        assert(src.take(4) =~= be_bytes(v as nat, 4));
        assert(src.skip(4) =~= rest);
    }

    proof fn cut_short_is_refused(v: u32, len: nat, version: Version) {
        lemma_be_bytes_len(v as nat, 4);
    }
}

impl Encoder for bool {
    /// One byte, 1 for `true` and 0 for `false`.
    open spec fn wire(v: bool, version: Version) -> Seq<u8> {
        seq![if v { 1u8 } else { 0u8 }]
    }

    open spec fn encoded(v: bool, version: Version) -> Encoded {
        Encoded { bytes: Self::wire(v, version), outcome: Ok(()) }
    }

    open spec fn size(v: bool, version: Version) -> usize {
        1
    }

    fn write_size(&self, version: Version) -> (size: usize) {
        1
    }

    fn encode(&self, dest: &mut Vec<u8>, version: Version) -> (result: Result<(), Error>) {
        dest.push(if *self { 1u8 } else { 0u8 });
        Ok(())
    }
}

impl Decoder for bool {
    open spec fn blank() -> bool {
        false
    }

    /// A byte other than 0 and 1 is consumed and refused.
    open spec fn read(start: bool, src: Seq<u8>, version: Version) -> Decoded<bool> {
        if src.len() == 0 {
            Decoded { value: start, rest: src, outcome: Err(Error::UnexpectedEof) }
        } else if src[0] <= 1 {
            Decoded { value: src[0] == 1, rest: src.skip(1), outcome: Ok(()) }
        } else {
            Decoded { value: start, rest: src.skip(1), outcome: Err(Error::InvalidData) }
        }
    }

    proof fn default_is_blank(value: bool) {
    }

    fn decode(&mut self, src: &mut &[u8], version: Version) -> (result: Result<(), Error>) {
        let all: &[u8] = *src;
        if all.len() == 0 {
            return Err(Error::UnexpectedEof);
        }
        let byte: u8 = all[0];
        *src = slice_subrange(all, 1, all.len());
        if byte <= 1 {
            *self = byte == 1;
            Ok(())
        } else {
            Err(Error::InvalidData)
        }
    }
}

impl Lossless for bool {
    open spec fn representable(v: bool) -> bool {
        true
    }

    proof fn reads_back(v: bool, rest: Seq<u8>, version: Version) {
        let src = Self::wire(v, version) + rest;
        assert(src.skip(1) =~= rest);
    }

    proof fn cut_short_is_refused(v: bool, len: nat, version: Version) {
    }
}

/// The number in the two bytes from `at` on, the most significant first.
pub open spec fn number_2(bytes: Seq<u8>, at: int) -> int {
    0x100 * bytes[at] + bytes[at + 1]
}

/// The number in the four bytes from `at` on, the most significant first.
pub open spec fn number_4(bytes: Seq<u8>, at: int) -> int {
    0x100_0000 * bytes[at] + 0x1_0000 * bytes[at + 1] + 0x100 * bytes[at + 2] + bytes[at + 3]
}

/// The number in the eight bytes from `at` on, the most significant first.
pub open spec fn number_8(bytes: Seq<u8>, at: int) -> int {
    0x1_0000_0000 * number_4(bytes, at) + number_4(bytes, at + 4)
}

/// The byte at `at` is `n`.
pub open spec fn i8_at(bytes: Seq<u8>, at: int, n: i8) -> bool {
    &&& 0 <= at < bytes.len()
    &&& bytes[at] == if n < 0 { n + 0x100 } else { n as int }
}

/// The two bytes from `at` on are `n`, the most significant first.
pub open spec fn i16_at(bytes: Seq<u8>, at: int, n: i16) -> bool {
    &&& 0 <= at <= bytes.len() - 2
    &&& number_2(bytes, at) == if n < 0 { n + 0x1_0000 } else { n as int }
}

/// The four bytes from `at` on are `n`, the most significant first.
pub open spec fn i32_at(bytes: Seq<u8>, at: int, n: i32) -> bool {
    &&& 0 <= at <= bytes.len() - 4
    &&& number_4(bytes, at) == if n < 0 { n + 0x1_0000_0000 } else { n as int }
}

/// The four bytes from `at` on are `n`, the most significant first.
pub open spec fn u32_at(bytes: Seq<u8>, at: int, n: u32) -> bool {
    &&& 0 <= at <= bytes.len() - 4
    &&& number_4(bytes, at) == n
}

/// The eight bytes from `at` on are `n`, the most significant first.
pub open spec fn i64_at(bytes: Seq<u8>, at: int, n: i64) -> bool {
    &&& 0 <= at <= bytes.len() - 8
    &&& number_8(bytes, at) == if n < 0 { n + 0x1_0000_0000_0000_0000 } else { n as int }
}

proof fn lemma_numbers(bytes: Seq<u8>, at: int)
    requires
        0 <= at,
    ensures
        at + 1 <= bytes.len() ==> be_value(bytes.skip(at).take(1)) == bytes[at],
        at + 2 <= bytes.len() ==> be_value(bytes.skip(at).take(2)) == number_2(bytes, at),
        at + 4 <= bytes.len() ==> be_value(bytes.skip(at).take(4)) == number_4(bytes, at),
        at + 8 <= bytes.len() ==> be_value(bytes.skip(at).take(8)) == number_8(bytes, at),
{
    lemma_digit(bytes, at, 0);
    lemma_digit(bytes, at, 1);
    lemma_digit(bytes, at, 2);
    lemma_digit(bytes, at, 3);
    lemma_digit(bytes, at, 4);
    lemma_digit(bytes, at, 5);
    lemma_digit(bytes, at, 6);
    lemma_digit(bytes, at, 7);
}

proof fn lemma_digit(bytes: Seq<u8>, at: int, i: int)
    requires
        0 <= at,
        0 <= i,
    ensures
        at + i < bytes.len() ==> be_value(bytes.skip(at).take(i + 1)) == 256 * be_value(
            bytes.skip(at).take(i),
        ) + bytes[at + i],
        i == 0 ==> be_value(bytes.skip(at).take(i)) == 0,
{
    if at + i < bytes.len() {
        assert(bytes.skip(at).take(i + 1).drop_last() =~= bytes.skip(at).take(i));
    }
}

/// An `i8` is written as one byte, a negative number as its
/// two's complement.
pub proof fn i8_is_written(v: i8, rest: Seq<u8>, version: Version)
    ensures
        i8::wire(v, version).len() == 1,
        i8_at(i8::wire(v, version) + rest, 0, v),
        i8::encoded(v, version) == (Encoded { bytes: i8::wire(v, version), outcome: Ok(()) }),
        i8::size(v, version) == 1,
{
    let n = twos_complement(v as int, 1);
    let bytes = i8::wire(v, version) + rest;
    lemma_spans();
    lemma_be_bytes_len(n, 1);
    lemma_be_value_of_bytes(n, 1);
    lemma_numbers(bytes, 0);
    assert(bytes.skip(0).take(1) =~= be_bytes(n, 1));
}

/// An `i8` is read from one byte; a shorter source is refused and left as it is.
pub proof fn i8_is_read(start: i8, src: Seq<u8>, at: int, version: Version)
    requires
        0 <= at <= src.len(),
    ensures
        i8::blank() == 0,
        ({
            let read = i8::read(start, src.skip(at), version);
            if at + 1 <= src.len() {
                &&& i8_at(src, at, read.value)
                &&& read.rest == src.skip(at + 1)
                &&& read.outcome is Ok
            } else {
                &&& read.value == start
                &&& read.rest == src.skip(at)
                &&& read.outcome == Err::<(), Error>(Error::UnexpectedEof)
            }
        }),
{
    lemma_spans();
    lemma_numbers(src, at);
    if at + 1 <= src.len() {
        lemma_be_value_bound(src.skip(at).take(1));
        assert(src.skip(at).skip(1) =~= src.skip(at + 1));
    }
}

/// An `i16` is written as two bytes, the most significant first, and a negative number as its
/// two's complement.
pub proof fn i16_is_written(v: i16, rest: Seq<u8>, version: Version)
    ensures
        i16::wire(v, version).len() == 2,
        i16_at(i16::wire(v, version) + rest, 0, v),
        i16::encoded(v, version) == (Encoded { bytes: i16::wire(v, version), outcome: Ok(()) }),
        i16::size(v, version) == 2,
{
    let n = twos_complement(v as int, 2);
    let bytes = i16::wire(v, version) + rest;
    lemma_spans();
    lemma_be_bytes_len(n, 2);
    lemma_be_value_of_bytes(n, 2);
    lemma_numbers(bytes, 0);
    assert(bytes.skip(0).take(2) =~= be_bytes(n, 2));
}

/// An `i16` is read from two bytes; a shorter source is refused and left as it is.
pub proof fn i16_is_read(start: i16, src: Seq<u8>, at: int, version: Version)
    requires
        0 <= at <= src.len(),
    ensures
        i16::blank() == 0,
        ({
            let read = i16::read(start, src.skip(at), version);
            if at + 2 <= src.len() {
                &&& i16_at(src, at, read.value)
                &&& read.rest == src.skip(at + 2)
                &&& read.outcome is Ok
            } else {
                &&& read.value == start
                &&& read.rest == src.skip(at)
                &&& read.outcome == Err::<(), Error>(Error::UnexpectedEof)
            }
        }),
{
    lemma_spans();
    lemma_numbers(src, at);
    if at + 2 <= src.len() {
        lemma_be_value_bound(src.skip(at).take(2));
        assert(src.skip(at).skip(2) =~= src.skip(at + 2));
    }
}

/// An `i32` is written as four bytes, the most significant first, and a negative number as its
/// two's complement.
pub proof fn i32_is_written(v: i32, rest: Seq<u8>, version: Version)
    ensures
        i32::wire(v, version).len() == 4,
        i32_at(i32::wire(v, version) + rest, 0, v),
        i32::encoded(v, version) == (Encoded { bytes: i32::wire(v, version), outcome: Ok(()) }),
        i32::size(v, version) == 4,
{
    let n = twos_complement(v as int, 4);
    let bytes = i32::wire(v, version) + rest;
    lemma_spans();
    lemma_be_bytes_len(n, 4);
    lemma_be_value_of_bytes(n, 4);
    lemma_numbers(bytes, 0);
    assert(bytes.skip(0).take(4) =~= be_bytes(n, 4));
}

/// An `i32` is read from four bytes; a shorter source is refused and left as it is.
pub proof fn i32_is_read(start: i32, src: Seq<u8>, at: int, version: Version)
    requires
        0 <= at <= src.len(),
    ensures
        i32::blank() == 0,
        ({
            let read = i32::read(start, src.skip(at), version);
            if at + 4 <= src.len() {
                &&& i32_at(src, at, read.value)
                &&& read.rest == src.skip(at + 4)
                &&& read.outcome is Ok
            } else {
                &&& read.value == start
                &&& read.rest == src.skip(at)
                &&& read.outcome == Err::<(), Error>(Error::UnexpectedEof)
            }
        }),
{
    lemma_spans();
    lemma_numbers(src, at);
    if at + 4 <= src.len() {
        lemma_be_value_bound(src.skip(at).take(4));
        assert(src.skip(at).skip(4) =~= src.skip(at + 4));
    }
}

/// An `i64` is written as eight bytes, the most significant first, and a negative number as its
/// two's complement.
pub proof fn i64_is_written(v: i64, rest: Seq<u8>, version: Version)
    ensures
        i64::wire(v, version).len() == 8,
        i64_at(i64::wire(v, version) + rest, 0, v),
        i64::encoded(v, version) == (Encoded { bytes: i64::wire(v, version), outcome: Ok(()) }),
        i64::size(v, version) == 8,
{
    let n = twos_complement(v as int, 8);
    let bytes = i64::wire(v, version) + rest;
    lemma_spans();
    lemma_be_bytes_len(n, 8);
    lemma_be_value_of_bytes(n, 8);
    lemma_numbers(bytes, 0);
    assert(bytes.skip(0).take(8) =~= be_bytes(n, 8));
}

/// An `i64` is read from eight bytes; a shorter source is refused and left as it is.
pub proof fn i64_is_read(start: i64, src: Seq<u8>, at: int, version: Version)
    requires
        0 <= at <= src.len(),
    ensures
        i64::blank() == 0,
        ({
            let read = i64::read(start, src.skip(at), version);
            if at + 8 <= src.len() {
                &&& i64_at(src, at, read.value)
                &&& read.rest == src.skip(at + 8)
                &&& read.outcome is Ok
            } else {
                &&& read.value == start
                &&& read.rest == src.skip(at)
                &&& read.outcome == Err::<(), Error>(Error::UnexpectedEof)
            }
        }),
{
    lemma_spans();
    lemma_numbers(src, at);
    if at + 8 <= src.len() {
        lemma_be_value_bound(src.skip(at).take(8));
        assert(src.skip(at).skip(8) =~= src.skip(at + 8));
    }
}

/// A `u32` is written as four bytes, the most significant first.
pub proof fn u32_is_written(v: u32, rest: Seq<u8>, version: Version)
    ensures
        u32::wire(v, version).len() == 4,
        u32_at(u32::wire(v, version) + rest, 0, v),
        u32::encoded(v, version) == (Encoded { bytes: u32::wire(v, version), outcome: Ok(()) }),
        u32::size(v, version) == 4,
{
    let n = v as nat;
    let bytes = u32::wire(v, version) + rest;
    lemma_spans();
    lemma_be_bytes_len(n, 4);
    lemma_be_value_of_bytes(n, 4);
    lemma_numbers(bytes, 0);
    assert(bytes.skip(0).take(4) =~= be_bytes(n, 4));
}

/// A `u32` is read from four bytes; a shorter source is refused and left as it is.
pub proof fn u32_is_read(start: u32, src: Seq<u8>, at: int, version: Version)
    requires
        0 <= at <= src.len(),
    ensures
        u32::blank() == 0,
        ({
            let read = u32::read(start, src.skip(at), version);
            if at + 4 <= src.len() {
                &&& u32_at(src, at, read.value)
                &&& read.rest == src.skip(at + 4)
                &&& read.outcome is Ok
            } else {
                &&& read.value == start
                &&& read.rest == src.skip(at)
                &&& read.outcome == Err::<(), Error>(Error::UnexpectedEof)
            }
        }),
{
    lemma_spans();
    lemma_numbers(src, at);
    if at + 4 <= src.len() {
        lemma_be_value_bound(src.skip(at).take(4));
        assert(src.skip(at).skip(4) =~= src.skip(at + 4));
    }
}

/// A flag is written as one byte, 1 or 0. Any other byte is consumed and refused.
pub proof fn flag_is_one_byte(v: bool, start: bool, src: Seq<u8>, version: Version)
    ensures
        bool::wire(v, version) == seq![if v { 1u8 } else { 0u8 }],
        bool::encoded(v, version) == (Encoded { bytes: bool::wire(v, version), outcome: Ok(()) }),
        bool::size(v, version) == 1,
        bool::blank() == false,
        ({
            let read = bool::read(start, src, version);
            &&& src.len() == 0 ==> read.rest == src && read.value == start && read.outcome == Err::<
                (),
                Error,
            >(Error::UnexpectedEof)
            &&& src.len() > 0 ==> read.rest == src.skip(1)
            &&& src.len() > 0 && src[0] == 0 ==> !read.value && read.outcome is Ok
            &&& src.len() > 0 && src[0] == 1 ==> read.value && read.outcome is Ok
            &&& src.len() > 0 && src[0] > 1 ==> read.value == start && read.outcome == Err::<
                (),
                Error,
            >(Error::InvalidData)
        }),
{
}

} // verus!
