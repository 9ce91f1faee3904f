use vstd::prelude::*;

verus! {

/// The Castagnoli polynomial without its highest term, in reversed bit order.
pub open spec fn castagnoli() -> u32 {
    0x82f6_3b78
}

/// The remainder once the dividend has grown by one bit: the lowest bit of the register leaves,
/// and where it was set, the polynomial is subtracted.
pub open spec fn bit_divided(register: u32) -> u32 {
    if register & 1 == 1 {
        (register >> 1) ^ castagnoli()
    } else {
        register >> 1
    }
}

/// The remainder once the dividend has grown by `bits` bits.
pub open spec fn bits_divided(register: u32, bits: nat) -> u32
    decreases bits,
{
    if bits == 0 {
        register
    } else {
        bits_divided(bit_divided(register), (bits - 1) as nat)
    }
}

/// The remainder of dividing `data` by the polynomial, with the register set to ones before the
/// first byte.
pub open spec fn remainder(data: Seq<u8>) -> u32
    decreases data.len(),
{
    if data.len() == 0 {
        0xffff_ffff
    } else {
        bits_divided(remainder(data.drop_last()) ^ (data.last() as u32), 8)
    }
}

/// The CRC-32C (Castagnoli) checksum of `data`: the complement of the remainder.
pub open spec fn crc32c_of(data: Seq<u8>) -> u32 {
    !remainder(data)
}

/// `crc32c::crc32c` computes the CRC-32C checksum of the whole payload, by tables or by
/// instructions of the processor: which of them makes no difference to the result.
pub assume_specification[ crc32c::crc32c ](data: &[u8]) -> (crc: u32)
    ensures
        crc == crc32c_of(data@),
;

} // verus!
