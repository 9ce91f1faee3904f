use vstd::arithmetic::div_mod::{
    lemma_add_mod_noop, lemma_add_mod_noop_right, lemma_mod_multiples_vanish, lemma_small_mod,
};
use vstd::prelude::*;

verus! {

/// Version of the protocol that a value is written for.
pub type Version = i16;

/// Why a value could not be read or written.
#[derive(Debug, PartialEq, Eq)]
pub enum Error {
    /// The source ends before the value does.
    UnexpectedEof,
    /// The bytes are no encoding of the value.
    InvalidData,
    /// Any other reason, in words.
    Other(String),
}

/// What a sum of sizes makes of a length: the length, or what is left of it in a `usize` where
/// it is too large for one.
pub open spec fn wrapped(len: nat) -> usize {
    if len <= usize::MAX {
        len as usize
    } else {
        left_in_usize(len)
    }
}

/// The low bits of `len`, as many as a `usize` has.
#[verifier::opaque]
pub open spec fn left_in_usize(len: nat) -> usize {
    (len % (usize::MAX as nat + 1)) as usize
}

/// A length is cut down by taking a remainder.
pub proof fn lemma_wrapped_is_mod(len: nat)
    ensures
        wrapped(len) == len % (usize::MAX as nat + 1),
{
    reveal(left_in_usize);
    if len <= usize::MAX {
        lemma_small_mod(len, usize::MAX as nat + 1);
    }
}

/// Adding sizes that are cut down comes to the same as cutting down their sum.
pub proof fn lemma_wrapped_sum(a: nat, b: nat)
    ensures
        wrapped(a + wrapped(b) as nat) == wrapped(a + b),
        wrapped(wrapped(a) as nat + wrapped(b) as nat) == wrapped(a + b),
{
    let m = usize::MAX as int + 1;
    lemma_wrapped_is_mod(a);
    lemma_wrapped_is_mod(b);
    lemma_wrapped_is_mod(a + b);
    lemma_wrapped_is_mod(a + wrapped(b) as nat);
    lemma_wrapped_is_mod(wrapped(a) as nat + wrapped(b) as nat);
    lemma_add_mod_noop(a as int, b as int, m);
    lemma_add_mod_noop_right(a as int, b as int, m);
}

/// Adds two sizes.
pub fn add_sizes(x: usize, y: usize) -> (size: usize)
    ensures
        size == wrapped(x as nat + y as nat),
{
    proof {
        let m = usize::MAX as int + 1;
        lemma_wrapped_is_mod((x + y) as nat);
        if x + y >= m {
            lemma_mod_multiples_vanish(1, x + y - m, m);
            lemma_small_mod((x + y - m) as nat, m as nat);
        }
    }
    x.wrapping_add(y)
}

/// What a write leaves behind: the bytes that were appended, and whether it went well.
#[verifier::ext_equal]
pub struct Encoded {
    pub bytes: Seq<u8>,
    pub outcome: Result<(), Error>,
}

/// What a read leaves behind: the value, the bytes not consumed, and whether it went well.
#[verifier::ext_equal]
pub struct Decoded<V> {
    pub value: V,
    pub rest: Seq<u8>,
    pub outcome: Result<(), Error>,
}

/// A value with a wire form.
pub trait Encoder: DeepView {
    /// The bytes that stand for `v`.
    spec fn wire(v: Self::V, version: Version) -> Seq<u8>;

    /// What writing `v` comes to.
    spec fn encoded(v: Self::V, version: Version) -> Encoded;

    /// The number of bytes that `v` is said to take.
    spec fn size(v: Self::V, version: Version) -> usize;

    /// The number of bytes that the value is said to take.
    fn write_size(&self, version: Version) -> (size: usize)
        ensures
            size == Self::size(self.deep_view(), version),
    ;

    /// Appends the wire form of the value to `dest`. A value that cannot be written may leave
    /// some bytes behind.
    fn encode(&self, dest: &mut Vec<u8>, version: Version) -> (result: Result<(), Error>)
        ensures
            result == Self::encoded(self.deep_view(), version).outcome,
            final(dest)@ == old(dest)@ + Self::encoded(self.deep_view(), version).bytes,
            result is Ok ==> Self::encoded(self.deep_view(), version).bytes == Self::wire(
                self.deep_view(),
                version,
            ),
    ;

    /// The wire form of the value in a buffer of its own.
    fn as_bytes(&self, version: Version) -> (result: Result<Vec<u8>, Error>)
        ensures
            match result {
                Ok(bytes) => {
                    &&& Self::encoded(self.deep_view(), version).outcome is Ok
                    &&& bytes@ == Self::wire(self.deep_view(), version)
                },
                Err(error) => Self::encoded(self.deep_view(), version).outcome == Err::<(), Error>(
                    error,
                ),
            },
    {
        let mut out: Vec<u8> = Vec::new();
        match self.encode(&mut out, version) {
            Ok(()) => {
                assert(out@ =~= Self::wire(self.deep_view(), version));
                Ok(out)
            },
            Err(error) => Err(error),
        }
    }
}

/// `v` takes the number of bytes that it is said to take.
pub open spec fn is_sized<E: Encoder>(v: E::V, version: Version) -> bool {
    E::size(v, version) == wrapped(E::wire(v, version).len())
}

/// A value that can be read from its wire form.
pub trait Decoder: Default + DeepView {
    /// The value that a read starts from when none is given.
    spec fn blank() -> Self::V;

    /// What reading from `src` into a value that holds `start` comes to.
    spec fn read(start: Self::V, src: Seq<u8>, version: Version) -> Decoded<Self::V>;

    /// `default` gives the blank value.
    proof fn default_is_blank(value: Self)
        requires
            call_ensures(Self::default, (), value),
        ensures
            value.deep_view() == Self::blank(),
    ;

    /// Reads the value from the front of `src` and moves `src` past what was read.
    fn decode(&mut self, src: &mut &[u8], version: Version) -> (result: Result<(), Error>)
        ensures
            Self::read(old(self).deep_view(), (*old(src))@, version) == (Decoded {
                value: final(self).deep_view(),
                rest: (*final(src))@,
                outcome: result,
            }),
    ;

    /// Reads a new value from the front of `src`.
    fn decode_from(src: &mut &[u8], version: Version) -> (result: Result<Self, Error>)
        ensures
            ({
                let read = Self::read(Self::blank(), (*old(src))@, version);
                &&& (*final(src))@ == read.rest
                &&& match result {
                    Ok(value) => read.outcome is Ok && value.deep_view() == read.value,
                    Err(error) => read.outcome == Err::<(), Error>(error),
                }
            }),
    {
        let mut decoded = Self::default();
        proof {
            Self::default_is_blank(decoded);
        }
        match decoded.decode(src, version) {
            Ok(()) => Ok(decoded),
            Err(error) => Err(error),
        }
    }
}

/// A type whose values come back from their wire form unchanged, if it is whole.
pub trait Lossless: Encoder + Decoder {
    /// The values for which the wire form has room.
    spec fn representable(v: Self::V) -> bool;

    /// Reading the wire form of `v`, whatever follows it, gives `v` and leaves what follows.
    proof fn reads_back(v: Self::V, rest: Seq<u8>, version: Version)
        requires
            Self::representable(v),
        ensures
            Self::read(Self::blank(), Self::wire(v, version) + rest, version) == (Decoded {
                value: v,
                rest,
                outcome: Ok(()),
            }),
    ;

    /// The wire form of `v` cut short after `len` bytes is refused.
    proof fn cut_short_is_refused(v: Self::V, len: nat, version: Version)
        requires
            Self::representable(v),
            len < Self::wire(v, version).len(),
        ensures
            Self::read(
                Self::blank(),
                Self::wire(v, version).take(len as int),
                version,
            ).outcome == Err::<(), Error>(Error::UnexpectedEof),
    ;
}

/// Writing a value appends to what is there just what the value gives in a buffer of its own, and
/// both fail alike.
pub proof fn writing_appends<E: Encoder>(
    value: &E,
    dest: &mut Vec<u8>,
    version: Version,
    written: Result<(), Error>,
    alone: Result<Vec<u8>, Error>,
)
    requires
        call_ensures(E::encode, (value, dest, version), written),
        call_ensures(E::as_bytes, (value, version), alone),
    ensures
        alone matches Ok(bytes) ==> written is Ok && final(dest)@ == old(dest)@ + bytes@ && bytes@
            == E::wire(value.deep_view(), version),
        alone matches Err(error) ==> written == Err::<(), Error>(error),
        final(dest)@.take(old(dest)@.len() as int) == old(dest)@,
{
    assert(final(dest)@.take(old(dest)@.len() as int) =~= old(dest)@);
}

/// A new value is read as one is read into the value by default, and leaves the same behind.
pub proof fn reading_a_new_value<D: Decoder>(
    fresh: &mut D,
    src: &mut &[u8],
    read: Result<(), Error>,
    again: &mut &[u8],
    new: Result<D, Error>,
    version: Version,
)
    requires
        call_ensures(D::default, (), *old(fresh)),
        call_ensures(D::decode, (fresh, src, version), read),
        (*old(again))@ == (*old(src))@,
        call_ensures(D::decode_from, (again, version), new),
    ensures
        (*final(again))@ == (*final(src))@,
        new matches Ok(value) ==> read is Ok && value.deep_view() == final(fresh).deep_view(),
        new matches Err(error) ==> read == Err::<(), Error>(error),
{
    D::default_is_blank(*old(fresh));
}

/// The sum of two sizes is what is left of it in a `usize`.
pub proof fn sizes_add_up(x: usize, y: usize, size: usize)
    requires
        call_ensures(add_sizes, (x, y), size),
    ensures
        size == if x + y <= usize::MAX { x + y } else { x + y - usize::MAX - 1 },
{
    lemma_wrapped_is_mod((x + y) as nat);
    if x + y > usize::MAX {
        let m = usize::MAX as int + 1;
        lemma_mod_multiples_vanish(1, x + y - m, m);
        lemma_small_mod((x + y - m) as nat, m as nat);
    }
}

/// A value takes the bytes that its type says, and is read as its type says.
pub proof fn sizes_and_reads_follow_the_type<E: Encoder, D: Decoder>(
    value: &E,
    size: usize,
    into: &mut D,
    src: &mut &[u8],
    version: Version,
    result: Result<(), Error>,
)
    requires
        call_ensures(E::write_size, (value, version), size),
        call_ensures(D::decode, (into, src, version), result),
    ensures
        size == E::size(value.deep_view(), version),
        final(into).deep_view() == D::read(old(into).deep_view(), (*old(src))@, version).value,
        (*final(src))@ == D::read(old(into).deep_view(), (*old(src))@, version).rest,
        result == D::read(old(into).deep_view(), (*old(src))@, version).outcome,
{
}

} // verus!
