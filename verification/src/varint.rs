use vstd::prelude::*;
use vstd::slice::slice_subrange;

use crate::codec::{Decoded, Error};

verus! {

/// The most bytes that the variable-length form of a number takes.
pub const VARINT_MAX_SIZE: usize = 10;

/// Numbers small in magnitude become small natural numbers: 0, -1, 1, -2, 2 and so on.
pub open spec fn zigzag(n: i64) -> nat {
    if n >= 0 {
        (2 * n) as nat
    } else {
        (-2 * n - 1) as nat
    }
}

/// The number that `zigzag` takes to `n`.
pub open spec fn unzigzag(n: nat) -> int {
    if n % 2 == 0 {
        n as int / 2
    } else {
        -(n as int / 2) - 1
    }
}

/// `n` in base 128, the least significant digit first, with 128 added to every digit but
/// the last.
pub open spec fn groups(n: nat) -> Seq<u8>
    decreases n,
{
    if n < 128 {
        seq![n as u8]
    } else {
        seq![(n % 128 + 128) as u8] + groups(n / 128)
    }
}

/// The number whose base-128 digits stand in `s`, the least significant first.
pub open spec fn groups_value(s: Seq<u8>) -> nat
    decreases s.len(),
{
    if s.len() == 0 {
        0
    } else {
        (s[0] % 128) as nat + 128 * groups_value(s.skip(1))
    }
}

/// How many bytes at the front of `s` announce another one.
pub open spec fn continued(s: Seq<u8>) -> nat
    decreases s.len(),
{
    if s.len() > 0 && s[0] >= 128 {
        1 + continued(s.skip(1))
    } else {
        0
    }
}

/// The variable-length form of a number.
pub open spec fn varint(n: i64) -> Seq<u8> {
    groups(zigzag(n))
}

/// What reading a number in variable-length form comes to. A failed read consumes nothing.
pub open spec fn read_varint(start: i64, src: Seq<u8>) -> Decoded<i64> {
    let len = continued(src) + 1;
    if len > VARINT_MAX_SIZE {
        Decoded { value: start, rest: src, outcome: Err(Error::InvalidData) }
    } else if len > src.len() {
        Decoded { value: start, rest: src, outcome: Err(Error::UnexpectedEof) }
    } else if groups_value(src.take(len as int)) > u64::MAX {
        Decoded { value: start, rest: src, outcome: Err(Error::InvalidData) }
    } else {
        Decoded {
            value: unzigzag(groups_value(src.take(len as int))) as i64,
            rest: src.skip(len as int),
            outcome: Ok(()),
        }
    }
}

/// The weight of the base-128 digit at position `i`.
spec fn weight(i: nat) -> nat
    decreases i,
{
    if i == 0 {
        1
    } else {
        128 * weight((i - 1) as nat)
    }
}

proof fn lemma_groups_len(n: nat, limit: nat)
    requires
        n < weight(limit),
        limit > 0,
    ensures
        1 <= groups(n).len() <= limit,
    decreases limit,
{
    reveal_with_fuel(weight, 2);
    if n >= 128 {
        lemma_groups_len(n / 128, (limit - 1) as nat);
    }
}

/// The variable-length form takes one to ten bytes.
pub proof fn lemma_varint_len(n: i64)
    ensures
        1 <= varint(n).len() <= VARINT_MAX_SIZE,
{
    reveal_with_fuel(weight, 11);
    lemma_groups_len(zigzag(n), 10);
}

proof fn lemma_groups_value(n: nat)
    ensures
        groups_value(groups(n)) == n,
    decreases n,
{
    reveal_with_fuel(groups_value, 2);
    if n >= 128 {
        lemma_groups_value(n / 128);
        assert(groups(n).skip(1) =~= groups(n / 128));
    }
}

proof fn lemma_groups_continued(n: nat, rest: Seq<u8>)
    ensures
        continued(groups(n) + rest) == groups(n).len() - 1,
    decreases n,
{
    if n >= 128 {
        lemma_groups_continued(n / 128, rest);
        assert((groups(n) + rest).skip(1) =~= groups(n / 128) + rest);
    }
}

proof fn lemma_groups_value_push(s: Seq<u8>, b: u8)
    ensures
        groups_value(s.push(b)) == groups_value(s) + weight(s.len()) * (b % 128),
    decreases s.len(),
{
    let digit = (b % 128) as nat;
    if s.len() == 0 {
        assert(s.push(b).skip(1) =~= s);
        assert(weight(0) * digit == digit) by (nonlinear_arith)
            requires
                weight(0) == 1,
        ;
    } else {
        let tail = s.skip(1);
        lemma_groups_value_push(tail, b);
        assert(s.push(b).skip(1) =~= tail.push(b));
        let w = weight(tail.len());
        assert(s.push(b)[0] == s[0]);
        assert(weight(s.len()) * digit == 128 * (w * digit)) by (nonlinear_arith)
            requires
                weight(s.len()) == 128 * w,
        ;
    }
}

proof fn lemma_continued_skip(s: Seq<u8>, i: nat)
    requires
        i <= s.len(),
        forall|j: int| 0 <= j < i ==> s[j] >= 128,
    ensures
        continued(s) == i + continued(s.skip(i as int)),
    decreases i,
{
    if i > 0 {
        lemma_continued_skip(s.skip(1), (i - 1) as nat);
        assert(s.skip(1).skip(i - 1) =~= s.skip(i as int));
    } else {
        assert(s.skip(0) =~= s);
    }
}

/// Reading the variable-length form of `n`, whatever follows it, gives `n` and leaves what
/// follows.
pub proof fn varint_reads_back(start: i64, n: i64, rest: Seq<u8>)
    ensures
        read_varint(start, varint(n) + rest) == (Decoded { value: n, rest, outcome: Ok(()) }),
{
    let src = varint(n) + rest;
    lemma_varint_len(n);
    lemma_groups_value(zigzag(n));
    lemma_groups_continued(zigzag(n), rest);
    assert(src.take(varint(n).len() as int) =~= varint(n));
    assert(src.skip(varint(n).len() as int) =~= rest);
}

proof fn lemma_groups_cut_continued(n: nat, len: nat)
    requires
        len < groups(n).len(),
    ensures
        continued(groups(n).take(len as int)) == len,
    decreases n,
{
    let cut = groups(n).take(len as int);
    if len > 0 {
        lemma_groups_cut_continued(n / 128, (len - 1) as nat);
        assert(cut.skip(1) =~= groups(n / 128).take(len - 1));
    }
}

/// The variable-length form of `n` cut short after `len` bytes is refused.
pub proof fn varint_cut_short_is_refused(start: i64, n: i64, len: nat)
    requires
        len < varint(n).len(),
    ensures
        read_varint(start, varint(n).take(len as int)).outcome == Err::<(), Error>(
            Error::UnexpectedEof,
        ),
{
    lemma_varint_len(n);
    lemma_groups_cut_continued(zigzag(n), len);
}

fn to_zigzag(n: i64) -> (result: u64)
    ensures
        result == zigzag(n),
{
    if n >= 0 {
        2 * (n as u64)
    } else {
        2 * ((-(n + 1)) as u64) + 1
    }
}

fn from_zigzag(n: u64) -> (result: i64)
    ensures
        result == unzigzag(n as nat),
{
    if n % 2 == 0 {
        (n / 2) as i64
    } else {
        -((n / 2) as i64) - 1
    }
}

/// The number of bytes that `encode_varint` writes.
pub fn varint_size(n: i64) -> (size: usize)
    ensures
        size == varint(n).len(),
        1 <= size <= VARINT_MAX_SIZE,
{
    let mut v: u64 = to_zigzag(n);
    let mut size: usize = 1;
    proof {
        lemma_varint_len(n);
    }
    while v >= 128
        invariant
            size >= 1,
            size + groups(v as nat).len() == varint(n).len() + 1,
            varint(n).len() <= VARINT_MAX_SIZE,
        decreases v,
    {
        proof {
            lemma_groups_nonempty((v / 128) as nat);
        }
        v = v / 128;
        size = size + 1;
    }
    size
}

proof fn lemma_groups_nonempty(n: nat)
    ensures
        groups(n).len() >= 1,
{
}

/// Appends the variable-length form of `n` to `dest`.
pub fn encode_varint(n: i64, dest: &mut Vec<u8>)
    ensures
        final(dest)@ == old(dest)@ + varint(n),
{
    let mut v: u64 = to_zigzag(n);
    while v >= 128
        invariant
            dest@ + groups(v as nat) == old(dest)@ + varint(n),
        decreases v,
    {
        let ghost before = dest@;
        dest.push((v % 128) as u8 + 128);
        proof {
            assert(dest@ + groups((v / 128) as nat) =~= before + groups(v as nat));
        }
        v = v / 128;
    }
    let ghost before = dest@;
    dest.push(v as u8);
    proof {
        assert(dest@ =~= before + groups(v as nat));
    }
}

/// Reads a number in variable-length form from the front of `src`. It is refused if it has
/// more than ten bytes or does not fit in 64 bits.
pub fn decode_varint(n: &mut i64, src: &mut &[u8]) -> (result: Result<(), Error>)
    ensures
        read_varint(*old(n), (*old(src))@) == (Decoded {
            value: *final(n),
            rest: (*final(src))@,
            outcome: result,
        }),
{
    let all: &[u8] = *src;
    let mut value: u64 = 0;
    let mut scale: u64 = 1;
    let mut i: usize = 0;
    while i < all.len()
        invariant
            i <= all@.len(),
            i < VARINT_MAX_SIZE,
            forall|j: int| 0 <= j < i ==> all@[j] >= 128,
            scale == weight(i as nat),
            value < weight(i as nat),
            value == groups_value(all@.take(i as int)),
            all@ == (*old(src))@,
            *src == all,
            *n == *old(n),
        decreases all@.len() - i,
    {
        let byte: u8 = all[i];
        let digit: u64 = (byte % 128) as u64;
        proof {
            reveal_with_fuel(weight, 11);
            lemma_continued_skip(all@, i as nat);
            lemma_groups_value_push(all@.take(i as int), byte);
            assert(all@.take(i as int).push(byte) =~= all@.take(i + 1));
            assert(all@.skip(i as int)[0] == byte);
        }
        if i == 9 && (byte >= 128 || digit > 1) {
            proof {
                assert(digit > 1 ==> scale * digit >= 2 * scale) by (nonlinear_arith);
            }
            return Err(Error::InvalidData);
        }
        proof {
            assert(scale * digit <= scale * 127) by (nonlinear_arith)
                requires
                    digit <= 127,
            ;
            assert(i == 9 ==> scale * digit <= scale) by (nonlinear_arith)
                requires
                    i == 9 ==> digit <= 1,
            ;
        }
        value = value + scale * digit;
        i = i + 1;
        if byte < 128 {
            *n = from_zigzag(value);
            *src = slice_subrange(all, i, all.len());
            return Ok(());
        }
        scale = scale * 128;
    }
    proof {
        lemma_continued_skip(all@, i as nat);
    }
    Err(Error::UnexpectedEof)
}

/// Twice a number, less one where it is negative: 0, -1, 1, -2, 2 give 0, 1, 2, 3, 4.
pub open spec fn folded(n: i64) -> int {
    if n >= 0 {
        2 * n
    } else {
        -2 * n - 1
    }
}

/// A number that folds to less than 128 takes one byte, what it folds to.
pub proof fn small_number_takes_one_byte(n: i64)
    requires
        folded(n) < 128,
    ensures
        varint(n).len() == 1,
        varint(n)[0] == folded(n),
{
}

/// A larger number takes a byte with its seven lowest bits, and 128 to announce more, in front of
/// the number that folds to the other bits.
pub proof fn large_number_takes_more(n: i64, others: i64)
    requires
        folded(n) >= 128,
        folded(others) == folded(n) / 128,
    ensures
        varint(n).len() == 1 + varint(others).len(),
        varint(n)[0] == 128 + folded(n) % 128,
        varint(n).skip(1) == varint(others),
{
    assert(varint(n).skip(1) =~= varint(others));
}

/// A number is written as its variable-length form, behind what is there, and takes as many bytes
/// as it is said to take.
pub proof fn number_is_written(n: i64, dest: &mut Vec<u8>, size: usize)
    requires
        call_ensures(encode_varint, (n, dest), ()),
        call_ensures(varint_size, (n,), size),
    ensures
        final(dest)@ == old(dest)@ + varint(n),
        final(dest)@.len() == old(dest)@.len() + size,
{
}

proof fn lemma_unfold(n: nat)
    requires
        n <= u64::MAX,
    ensures
        i64::MIN <= unzigzag(n) <= i64::MAX,
        folded(unzigzag(n) as i64) == n,
{
}

/// A number ends with the first byte below 128. Each byte in front of it adds its seven lowest
/// bits below those of the number that follows. A number of more than ten bytes, or of more than
/// 64 bits, is refused; so is one that has no end. What is refused is left as it is.
pub proof fn number_is_read(start: i64, src: Seq<u8>)
    ensures
        ({
            let read = read_varint(start, src);
            let tail = read_varint(start, src.skip(1));
            let used = src.len() - tail.rest.len();
            let sum = src[0] - 128 + 128 * folded(tail.value);
            &&& read.outcome is Err ==> read.value == start && read.rest == src
            &&& src.len() == 0 ==> read.outcome == Err::<(), Error>(Error::UnexpectedEof)
            &&& src.len() > 0 && src[0] < 128 ==> {
                &&& read.outcome is Ok
                &&& folded(read.value) == src[0]
                &&& read.rest == src.skip(1)
            }
            &&& src.len() > 0 && src[0] >= 128 && tail.outcome is Ok ==> if used <= 10 && sum
                <= u64::MAX {
                &&& read.outcome is Ok
                &&& folded(read.value) == sum
                &&& read.rest == tail.rest
            } else {
                read.outcome == Err::<(), Error>(Error::InvalidData)
            }
            &&& src.len() > 0 && src[0] >= 128 && tail.outcome is Err ==> read.outcome == Err::<
                (),
                Error,
            >(
                if tail.outcome == Err::<(), Error>(Error::UnexpectedEof) && src.len() < 10 {
                    Error::UnexpectedEof
                } else {
                    Error::InvalidData
                },
            )
        }),
{
    reveal_with_fuel(groups_value, 2);
    let len = continued(src) + 1;
    if src.len() > 0 {
        let behind = src.skip(1);
        lemma_continued_bound(src);
        lemma_continued_bound(behind);
        if src[0] < 128 {
            assert(src.take(1).skip(1) =~= Seq::empty());
            lemma_unfold(src[0] as nat);
        } else if len <= src.len() {
            assert(src.take(len as int).skip(1) =~= behind.take(len - 1));
            assert(behind.skip(len - 1) =~= src.skip(len as int));
            let value = groups_value(src.take(len as int));
            let others = groups_value(behind.take(len - 1));
            if others <= u64::MAX {
                lemma_unfold(others);
            }
            if value <= u64::MAX {
                lemma_unfold(value);
            }
        }
    }
}

proof fn lemma_continued_bound(s: Seq<u8>)
    ensures
        continued(s) <= s.len(),
    decreases s.len(),
{
    if s.len() > 0 {
        lemma_continued_bound(s.skip(1));
    }
}

/// A number in variable-length form that is written is read back, whatever was there before and
/// whatever follows.
pub proof fn written_number_is_read_back(
    n: i64,
    dest: &mut Vec<u8>,
    rest: Seq<u8>,
    into: &mut i64,
    src: &mut &[u8],
    result: Result<(), Error>,
)
    requires
        call_ensures(encode_varint, (n, dest), ()),
        (*old(src))@ == final(dest)@.skip(old(dest)@.len() as int) + rest,
        call_ensures(decode_varint, (into, src), result),
    ensures
        result is Ok,
        *final(into) == n,
        (*final(src))@ == rest,
{
    assert(final(dest)@.skip(old(dest)@.len() as int) =~= varint(n));
    varint_reads_back(*old(into), n, rest);
}

/// A number is read from the front of the source; what cannot be read leaves the number and the
/// source as they are.
pub proof fn number_is_read_from_the_front(
    into: &mut i64,
    src: &mut &[u8],
    result: Result<(), Error>,
)
    requires
        call_ensures(decode_varint, (into, src), result),
    ensures
        result is Err ==> *final(into) == *old(into) && (*final(src))@ == (*old(src))@,
        result == read_varint(*old(into), (*old(src))@).outcome,
        *final(into) == read_varint(*old(into), (*old(src))@).value,
        (*final(src))@ == read_varint(*old(into), (*old(src))@).rest,
{
}

} // verus!
