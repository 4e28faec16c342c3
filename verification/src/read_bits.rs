//! Bit-level reader beneath the field-path and value decoders.
//!
//! The stream is read least-significant bit first within each byte.  Every
//! read either consumes exactly the bits its contract names or fails without
//! moving the cursor.

use vstd::prelude::*;

verus! {

use crate::BitReaderError;

/// Upper bound on the byte length of one bit-packed payload, so that the bit
/// count `8 * len` fits comfortably in `usize` on every platform.
pub const MAX_STREAM_BYTES: usize = 0x0800_0000;

/// Bit `i` of the stream: bit `i % 8` (counting from the least significant
/// side) of byte `i / 8`.  Always 0 or 1.
pub open spec fn spec_bit(bytes: Seq<u8>, i: int) -> u64 {
    ((bytes[i / 8] as u64) >> ((i % 8) as u64)) & 1u64
}

/// Value of the `n` bits starting at `pos`, accumulated little-endian: the
/// bit at `pos + k` contributes `2^k`.  Meaningful for `n <= 64`.
pub open spec fn spec_bits(bytes: Seq<u8>, pos: int, n: nat) -> u64
    decreases n,
{
    if n == 0 {
        0u64
    } else {
        spec_bits(bytes, pos, (n - 1) as nat) | (spec_bit(bytes, pos + n - 1) << ((n - 1) as u64))
    }
}

pub proof fn lemma_spec_bit_le_one(bytes: Seq<u8>, i: int)
    ensures
        spec_bit(bytes, i) == 0 || spec_bit(bytes, i) == 1,
{
    let v = bytes[i / 8] as u64;
    let k = (i % 8) as u64;
    assert((v >> k) & 1u64 == 0 || (v >> k) & 1u64 == 1) by (bit_vector);
}

/// `n` bits hold a value below `2^n`.
pub proof fn lemma_spec_bits_bound(bytes: Seq<u8>, pos: int, n: nat)
    requires
        n <= 63,
    ensures
        spec_bits(bytes, pos, n) < (1u64 << (n as u64)),
    decreases n,
{
    if n == 0 {
        assert(1u64 << 0u64 == 1) by (bit_vector);
    } else {
        lemma_spec_bits_bound(bytes, pos, (n - 1) as nat);
        lemma_spec_bit_le_one(bytes, pos + n - 1);
        let a = spec_bits(bytes, pos, (n - 1) as nat);
        let b = spec_bit(bytes, pos + n - 1);
        let k = (n - 1) as u64;
        assert(a < (1u64 << k) && b <= 1 && k < 63 ==> (a | (b << k)) < (1u64 << ((k + 1) as u64)))
            by (bit_vector);
    }
}

/// Cursor over a bit-packed payload.
pub struct Bitreader {
    pub bytes: Vec<u8>,
    /// Position in bits from the start of `bytes`.
    pub pos: usize,
}

impl Bitreader {
    /// Total number of bits in the buffer.
    pub open spec fn spec_nbits(&self) -> int {
        self.bytes@.len() * 8int
    }

    pub open spec fn wf(&self) -> bool {
        &&& self.bytes@.len() <= MAX_STREAM_BYTES
        &&& self.pos <= self.spec_nbits()
    }

    pub fn new(bytes: Vec<u8>) -> (r: Bitreader)
        requires
            bytes@.len() <= MAX_STREAM_BYTES,
        ensures
            r.wf(),
            r.bytes@ == bytes@,
            r.pos == 0,
    {
        Bitreader { bytes, pos: 0 }
    }

    /// How many bits are left to read.
    pub fn bits_remaining(&self) -> (r: usize)
        requires
            self.wf(),
        ensures
            r == self.spec_nbits() - self.pos,
    {
        self.bytes.len() * 8 - self.pos
    }

    /// Reads one bit.
    pub fn read_boolie(&mut self) -> (r: Result<bool, BitReaderError>)
        requires
            old(self).wf(),
        ensures
            final(self).wf(),
            final(self).bytes@ == old(self).bytes@,
            match r {
                Ok(b) => {
                    &&& old(self).pos < old(self).spec_nbits()
                    &&& final(self).pos == old(self).pos + 1
                    &&& b == (spec_bit(old(self).bytes@, old(self).pos as int) == 1)
                },
                Err(e) => {
                    &&& *final(self) == *old(self)
                    &&& e == BitReaderError::OutOfBitsError
                    &&& old(self).pos >= old(self).spec_nbits()
                },
            },
    {
        if self.pos >= self.bytes.len() * 8 {
            return Err(BitReaderError::OutOfBitsError);
        }
        proof {
            assert(self.pos / 8 < self.bytes@.len()) by (nonlinear_arith)
                requires
                    self.pos < self.bytes@.len() * 8,
            ;
        }
        let byte: u8 = self.bytes[self.pos / 8];
        let shift: u64 = (self.pos % 8) as u64;
        let bit: u8 = (byte >> shift) & 1;
        proof {
            let b8 = byte;
            let k = shift;
            assert(k < 8 ==> (((b8 >> k) & 1u8) == 1) == ((((b8 as u64) >> k) & 1u64) == 1))
                by (bit_vector);
        }
        self.pos = self.pos + 1;
        Ok(bit == 1)
    }

    /// Reads `n <= 32` bits as a little-endian value.
    pub fn read_nbits(&mut self, n: u32) -> (r: Result<u32, BitReaderError>)
        requires
            old(self).wf(),
            n <= 32,
        ensures
            final(self).wf(),
            final(self).bytes@ == old(self).bytes@,
            match r {
                Ok(v) => {
                    &&& old(self).pos + n <= old(self).spec_nbits()
                    &&& final(self).pos == old(self).pos + n
                    &&& v == spec_bits(old(self).bytes@, old(self).pos as int, n as nat)
                },
                Err(e) => {
                    &&& *final(self) == *old(self)
                    &&& e == BitReaderError::OutOfBitsError
                    &&& old(self).pos + n > old(self).spec_nbits()
                },
            },
    {
        let rem: usize = self.bytes.len() * 8 - self.pos;
        if (n as usize) > rem {
            return Err(BitReaderError::OutOfBitsError);
        }
        let ghost start = self.pos as int;
        let mut acc: u64 = 0;
        let mut i: u32 = 0;
        while i < n
            invariant
                self.wf(),
                i <= n,
                n <= 32,
                self.bytes@ == old(self).bytes@,
                self.pos == start + i,
                start + n <= self.spec_nbits(),
                acc == spec_bits(self.bytes@, start, i as nat),
            decreases n - i,
        {
            let b = match self.read_boolie() {
                Ok(b) => b,
                Err(_) => {
                    proof {
                        assert(false);
                    }
                    return Err(BitReaderError::OutOfBitsError);
                },
            };
            let bitu: u64 = if b {
                1
            } else {
                0
            };
            proof {
                lemma_spec_bit_le_one(self.bytes@, start + i);
            }
            acc = acc | (bitu << (i as u64));
            i = i + 1;
        }
        proof {
            lemma_spec_bits_bound(self.bytes@, start, n as nat);
            let m = n as u64;
            assert(m <= 32 ==> (1u64 << m) <= 0x1_0000_0000u64) by (bit_vector);
        }
        Ok(acc as u32)
    }
}

/// How many extension bits a variable-width bit read takes, decided by the
/// two selector bits of its 6-bit prefix.
pub open spec fn spec_ubitvar_extra(v6: u64) -> nat {
    if v6 & 48 == 16 {
        4
    } else if v6 & 48 == 32 {
        8
    } else if v6 & 48 == 48 {
        28
    } else {
        0
    }
}

/// Number of bits a variable-width bit read starting at `pos` consumes.
pub open spec fn spec_ubitvar_len(bytes: Seq<u8>, pos: int) -> nat {
    6 + spec_ubitvar_extra(spec_bits(bytes, pos, 6))
}

/// Value of the variable-width bit read starting at `pos`: the low 4 bits of
/// the prefix, extended by the extension bits shifted past them; a prefix
/// with no extension stands for itself.
pub open spec fn spec_ubitvar_value(bytes: Seq<u8>, pos: int) -> u64 {
    let v6 = spec_bits(bytes, pos, 6);
    let extra = spec_ubitvar_extra(v6);
    if extra == 0 {
        v6
    } else {
        (v6 & 15) | (spec_bits(bytes, pos + 6, extra) << 4u64)
    }
}

/// One step of the 7-bits-per-group variable-length integer: group `count`
/// is OR-ed into the accumulator at bit `7 * count`; a clear top bit ends the
/// number; after `max_groups` groups the value is complete as read.
pub open spec fn spec_varint64_rec(
    bytes: Seq<u8>,
    pos: int,
    count: nat,
    acc: u64,
    max_groups: nat,
) -> Option<(u64, int)>
    decreases max_groups - count when count <= max_groups
{
    if count >= max_groups {
        Some((acc, pos))
    } else if pos + 8 > bytes.len() * 8 || pos < 0 {
        None
    } else {
        let b = spec_bits(bytes, pos, 8);
        let acc2 = acc | ((b & 127) << ((7 * count) as u64));
        if b & 128 == 0 {
            Some((acc2, pos + 8))
        } else {
            spec_varint64_rec(bytes, pos + 8, count + 1, acc2, max_groups)
        }
    }
}

/// A 32-bit variable-length integer: at most 5 groups, truncated to `u32`.
pub open spec fn spec_varint32(bytes: Seq<u8>, pos: int) -> Option<(u32, int)> {
    match spec_varint64_rec(bytes, pos, 0, 0, 5) {
        Some((v, end)) => Some(((v as u32), end)),
        None => None,
    }
}

/// A 64-bit variable-length integer: at most 10 groups.
pub open spec fn spec_varint64(bytes: Seq<u8>, pos: int) -> Option<(u64, int)> {
    spec_varint64_rec(bytes, pos, 0, 0, 10)
}

/// The zero-terminated byte string starting at `pos`: eight bits at a time
/// until a zero byte, which is consumed but not kept.
pub open spec fn spec_cstr(bytes: Seq<u8>, pos: int) -> Option<(Seq<u8>, int)>
    decreases bytes.len() * 8 - pos,
{
    if pos < 0 || pos + 8 > bytes.len() * 8 {
        None
    } else {
        let b = spec_bits(bytes, pos, 8);
        if b == 0 {
            Some((Seq::<u8>::empty(), pos + 8))
        } else {
            match spec_cstr(bytes, pos + 8) {
                None => None,
                Some((s, end)) => Some((seq![b as u8] + s, end)),
            }
        }
    }
}

impl Bitreader {
    /// Reads the variable-width bit-packed integer: a 6-bit prefix whose two
    /// selector bits pick 0, 4, 8 or 28 extension bits.
    pub fn read_u_bit_var(&mut self) -> (r: Result<u32, BitReaderError>)
        requires
            old(self).wf(),
        ensures
            final(self).wf(),
            final(self).bytes@ == old(self).bytes@,
            match r {
                Ok(v) => {
                    &&& old(self).pos + spec_ubitvar_len(old(self).bytes@, old(self).pos as int)
                        <= old(self).spec_nbits()
                    &&& final(self).pos == old(self).pos + spec_ubitvar_len(
                        old(self).bytes@,
                        old(self).pos as int,
                    )
                    &&& v == spec_ubitvar_value(old(self).bytes@, old(self).pos as int)
                },
                Err(e) => {
                    &&& final(self).pos == old(self).pos
                    &&& e == BitReaderError::OutOfBitsError
                    &&& old(self).pos + spec_ubitvar_len(old(self).bytes@, old(self).pos as int)
                        > old(self).spec_nbits()
                },
            },
    {
        let start: usize = self.pos;
        let v6 = match self.read_nbits(6) {
            Ok(v) => v,
            Err(e) => {
                return Err(e);
            },
        };
        let extra: u32 = if v6 & 48 == 16 {
            4
        } else if v6 & 48 == 32 {
            8
        } else if v6 & 48 == 48 {
            28
        } else {
            0
        };
        proof {
            assert((((v6 as u64) & 48u64 == 16) == (v6 & 48u32 == 16)) && (((v6 as u64) & 48u64
                == 32) == (v6 & 48u32 == 32)) && (((v6 as u64) & 48u64 == 48) == (v6 & 48u32
                == 48))) by (bit_vector);
        }
        if extra == 0 {
            return Ok(v6);
        }
        match self.read_nbits(extra) {
            Ok(m) => {
                proof {
                    lemma_spec_bits_bound(self.bytes@, start + 6, extra as nat);
                    assert((extra == 4 || extra == 8 || extra == 28) ==> (1u64 << (extra as u64))
                        <= 0x10000000u64) by (bit_vector);
                    assert((((v6 & 15) | (m << 4)) as u64) == (((v6 as u64) & 15u64) | (
                    (m as u64) << 4u64))) by (bit_vector)
                        requires
                            (m as u64) < 0x10000000u64,
                    ;
                }
                Ok((v6 & 15) | (m << 4))
            },
            Err(e) => {
                self.pos = start;
                Err(e)
            },
        }
    }

    /// Reads a 32-bit variable-length integer, seven value bits per byte,
    /// ending on a clear top bit or after five bytes.
    pub fn read_varint(&mut self) -> (r: Result<u32, BitReaderError>)
        requires
            old(self).wf(),
        ensures
            final(self).wf(),
            final(self).bytes@ == old(self).bytes@,
            match r {
                Ok(v) => {
                    &&& spec_varint32(old(self).bytes@, old(self).pos as int) matches Some((sv, send))
                        && v == sv && final(self).pos == send
                    &&& final(self).pos >= old(self).pos
                },
                Err(e) => {
                    &&& final(self).pos == old(self).pos
                    &&& e == BitReaderError::OutOfBitsError
                    &&& spec_varint32(old(self).bytes@, old(self).pos as int) is None
                },
            },
    {
        let start: usize = self.pos;
        let mut acc: u64 = 0;
        let mut count: u32 = 0;
        loop
            invariant
                self.wf(),
                count <= 5,
                self.bytes@ == old(self).bytes@,
                start == old(self).pos,
                self.pos >= start,
                start <= self.spec_nbits(),
                spec_varint64_rec(self.bytes@, start as int, 0, 0, 5) == spec_varint64_rec(
                    self.bytes@,
                    self.pos as int,
                    count as nat,
                    acc,
                    5,
                ),
            decreases 5 - count,
        {
            if count >= 5 {
                proof {
                    assert(spec_varint64_rec(self.bytes@, self.pos as int, count as nat, acc, 5)
                        == Some((acc, self.pos as int)));
                }
                return Ok(#[verifier::truncate] (acc as u32));
            }
            let ghost pre_pos = self.pos as int;
            let ghost pre_acc = acc;
            let ghost pre_count = count as nat;
            let b = match self.read_nbits(8) {
                Ok(b) => b,
                Err(e) => {
                    proof {
                        assert(spec_varint64_rec(self.bytes@, pre_pos, pre_count, pre_acc, 5)
                            is None);
                    }
                    self.pos = start;
                    return Err(e);
                },
            };
            acc = acc | (((b as u64) & 127) << ((7 * count) as u64));
            let fin: bool = b & 128 == 0;
            proof {
                let sb = spec_bits(self.bytes@, pre_pos, 8);
                assert(b as u64 == sb);
                assert((sb & 128u64 == 0) == ((b & 128u32) == 0)) by (bit_vector)
                    requires
                        sb == b as u64,
                ;
                assert(fin ==> spec_varint64_rec(self.bytes@, pre_pos, pre_count, pre_acc, 5)
                    == Some((acc, self.pos as int)));
                assert(!fin ==> spec_varint64_rec(self.bytes@, pre_pos, pre_count, pre_acc, 5)
                    == spec_varint64_rec(self.bytes@, self.pos as int, pre_count + 1, acc, 5));
            }
            if fin {
                return Ok(#[verifier::truncate] (acc as u32));
            }
            count = count + 1;
        }
    }

    /// Reads a 64-bit variable-length integer, seven value bits per byte,
    /// ending on a clear top bit or after ten bytes.
    pub fn read_varint_u64(&mut self) -> (r: Result<u64, BitReaderError>)
        requires
            old(self).wf(),
        ensures
            final(self).wf(),
            final(self).bytes@ == old(self).bytes@,
            match r {
                Ok(v) => {
                    &&& spec_varint64(old(self).bytes@, old(self).pos as int) matches Some((sv, send))
                        && v == sv && final(self).pos == send
                },
                Err(e) => {
                    &&& final(self).pos == old(self).pos
                    &&& e == BitReaderError::OutOfBitsError
                    &&& spec_varint64(old(self).bytes@, old(self).pos as int) is None
                },
            },
    {
        let start: usize = self.pos;
        let mut acc: u64 = 0;
        let mut count: u32 = 0;
        loop
            invariant
                self.wf(),
                count <= 10,
                self.bytes@ == old(self).bytes@,
                start == old(self).pos,
                start <= self.spec_nbits(),
                spec_varint64_rec(self.bytes@, start as int, 0, 0, 10) == spec_varint64_rec(
                    self.bytes@,
                    self.pos as int,
                    count as nat,
                    acc,
                    10,
                ),
            decreases 10 - count,
        {
            if count >= 10 {
                proof {
                    assert(spec_varint64_rec(self.bytes@, self.pos as int, count as nat, acc, 10)
                        == Some((acc, self.pos as int)));
                }
                return Ok(acc);
            }
            let ghost pre_pos = self.pos as int;
            let ghost pre_acc = acc;
            let ghost pre_count = count as nat;
            let b = match self.read_nbits(8) {
                Ok(b) => b,
                Err(e) => {
                    proof {
                        assert(spec_varint64_rec(self.bytes@, pre_pos, pre_count, pre_acc, 10)
                            is None);
                    }
                    self.pos = start;
                    return Err(e);
                },
            };
            proof {
                assert(7 * count <= 63);
            }
            acc = acc | (((b as u64) & 127) << ((7 * count) as u64));
            let fin: bool = b & 128 == 0;
            proof {
                let sb = spec_bits(self.bytes@, pre_pos, 8);
                assert(b as u64 == sb);
                assert((sb & 128u64 == 0) == ((b & 128u32) == 0)) by (bit_vector)
                    requires
                        sb == b as u64,
                ;
                assert(fin ==> spec_varint64_rec(self.bytes@, pre_pos, pre_count, pre_acc, 10)
                    == Some((acc, self.pos as int)));
                assert(!fin ==> spec_varint64_rec(self.bytes@, pre_pos, pre_count, pre_acc, 10)
                    == spec_varint64_rec(self.bytes@, self.pos as int, pre_count + 1, acc, 10));
            }
            if fin {
                return Ok(acc);
            }
            count = count + 1;
        }
    }

    /// Reads a zero-terminated byte string: eight bits at a time until a
    /// zero byte, which is consumed but not returned.
    pub fn read_string_bytes(&mut self) -> (r: Result<Vec<u8>, BitReaderError>)
        requires
            old(self).wf(),
        ensures
            final(self).wf(),
            final(self).bytes@ == old(self).bytes@,
            match r {
                Ok(v) => {
                    &&& spec_cstr(old(self).bytes@, old(self).pos as int) matches Some((sv, send))
                        && v@ == sv && final(self).pos == send
                },
                Err(e) => {
                    &&& final(self).pos == old(self).pos
                    &&& e == BitReaderError::OutOfBitsError
                    &&& spec_cstr(old(self).bytes@, old(self).pos as int) is None
                },
            },
    {
        let start: usize = self.pos;
        let mut out: Vec<u8> = Vec::new();
        loop
            invariant
                self.wf(),
                self.bytes@ == old(self).bytes@,
                start == old(self).pos,
                start <= self.spec_nbits(),
                self.pos >= start,
                match spec_cstr(self.bytes@, self.pos as int) {
                    Some((s, e)) => spec_cstr(self.bytes@, start as int) == Some((out@ + s, e)),
                    None => spec_cstr(self.bytes@, start as int) is None,
                },
            decreases self.spec_nbits() - self.pos,
        {
            let ghost pre_pos = self.pos as int;
            let ghost pre_out = out@;
            let b = match self.read_nbits(8) {
                Ok(b) => b,
                Err(e) => {
                    proof {
                        assert(spec_cstr(self.bytes@, pre_pos) is None);
                    }
                    self.pos = start;
                    return Err(e);
                },
            };
            if b == 0 {
                proof {
                    assert(spec_cstr(self.bytes@, pre_pos) == Some(
                        (Seq::<u8>::empty(), self.pos as int),
                    ));
                    assert(out@ + Seq::<u8>::empty() =~= out@);
                }
                return Ok(out);
            }
            proof {
                lemma_spec_bits_bound(self.bytes@, pre_pos, 8);
                assert((1u64 << 8u64) == 256) by (bit_vector);
            }
            out.push(b as u8);
            proof {
                let sb = spec_bits(self.bytes@, pre_pos, 8);
                assert(out@ =~= pre_out + seq![sb as u8]);
                assert(spec_cstr(self.bytes@, pre_pos) == (match spec_cstr(
                    self.bytes@,
                    self.pos as int,
                ) {
                    None => None::<(Seq<u8>, int)>,
                    Some((s, e)) => Some((seq![sb as u8] + s, e)),
                }));
                assert forall|s: Seq<u8>| true implies pre_out + (seq![sb as u8] + s) =~= out@
                    + s by {
                    assert(pre_out + (seq![sb as u8] + s) =~= (pre_out + seq![sb as u8]) + s);
                }
            }
        }
    }
}

} // verus!
