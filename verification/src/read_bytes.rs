//! Byte-level reads over the outer stream owned by the session.

use vstd::prelude::*;

verus! {

use crate::BitReaderError;
use crate::parser_settings::Parser;

/// One step of the byte-level variable-length integer at `ptr`: seven value
/// bits per byte, ending on a clear top bit or after five bytes.
pub open spec fn spec_byte_varint_rec(bytes: Seq<u8>, ptr: int, count: nat, acc: u32) -> Option<
    (u32, int),
>
    decreases 5 - count when count <= 5
{
    if count >= 5 {
        Some((acc, ptr))
    } else if ptr < 0 || ptr >= bytes.len() {
        None
    } else {
        let b = bytes[ptr];
        let acc2 = acc | (((b & 127) as u32) << ((7 * count) as u32));
        if b & 128 == 0 {
            Some((acc2, ptr + 1))
        } else {
            spec_byte_varint_rec(bytes, ptr + 1, count + 1, acc2)
        }
    }
}

/// The byte-level variable-length integer starting at `ptr`.
pub open spec fn spec_byte_varint(bytes: Seq<u8>, ptr: int) -> Option<(u32, int)> {
    spec_byte_varint_rec(bytes, ptr, 0, 0)
}

impl Parser {
    /// Advances the byte cursor without reading.
    pub fn skip_n_bytes(&mut self, n: u32)
        requires
            old(self).ptr + n <= usize::MAX,
        ensures
            final(self).ptr == old(self).ptr + n,
            final(self).bytes@ == old(self).bytes@,
            *final(self) == (Parser { ptr: final(self).ptr, ..*old(self) }),
    {
        self.ptr = self.ptr + n as usize;
    }

    /// Reads the next `n` bytes as a slice, advancing the cursor.  As in the
    /// stream's framing, a read that would touch the final byte of the
    /// buffer is already out of bounds.
    pub fn read_n_bytes(&mut self, n: u32) -> (r: Result<&[u8], BitReaderError>)
        ensures
            final(self).bytes@ == old(self).bytes@,
            *final(self) == (Parser { ptr: final(self).ptr, ..*old(self) }),
            match r {
                Ok(s) => {
                    &&& old(self).ptr + n < old(self).bytes@.len()
                    &&& final(self).ptr == old(self).ptr + n
                    &&& s@ == old(self).bytes@.subrange(
                        old(self).ptr as int,
                        old(self).ptr + n,
                    )
                },
                Err(e) => {
                    &&& e == BitReaderError::OutOfBytesError
                    &&& final(self).ptr == old(self).ptr
                    &&& old(self).ptr + n >= old(self).bytes@.len()
                },
            },
    {
        if self.ptr >= self.bytes.len() || self.bytes.len() - self.ptr <= n as usize {
            return Err(BitReaderError::OutOfBytesError);
        }
        let s: &[u8] = vstd::slice::slice_subrange(
            self.bytes.as_slice(),
            self.ptr,
            self.ptr + n as usize,
        );
        self.ptr = self.ptr + n as usize;
        Ok(s)
    }

    /// Reads a byte-level variable-length integer, advancing the cursor.
    /// A number cut off by the end of the stream fails after consuming the
    /// trailing continuation bytes, leaving the cursor at the buffer end.
    pub fn read_varint(&mut self) -> (r: Result<u32, BitReaderError>)
        ensures
            final(self).bytes@ == old(self).bytes@,
            *final(self) == (Parser { ptr: final(self).ptr, ..*old(self) }),
            match r {
                Ok(v) => {
                    &&& spec_byte_varint(old(self).bytes@, old(self).ptr as int) matches Some(
                        (sv, send),
                    ) && v == sv && final(self).ptr == send
                },
                Err(e) => {
                    &&& e == BitReaderError::OutOfBytesError
                    &&& final(self).ptr == (if old(self).ptr >= old(self).bytes@.len() {
                        old(self).ptr as int
                    } else {
                        old(self).bytes@.len() as int
                    })
                    &&& spec_byte_varint(old(self).bytes@, old(self).ptr as int) is None
                },
            },
    {
        let start: usize = self.ptr;
        let mut result: u32 = 0;
        let mut count: u8 = 0;
        loop
            invariant
                self.bytes@ == old(self).bytes@,
                *self == (Parser { ptr: self.ptr, ..*old(self) }),
                count <= 5,
                start == old(self).ptr,
                self.ptr >= start,
                self.ptr <= self.bytes@.len() || self.ptr == start,
                spec_byte_varint_rec(self.bytes@, start as int, 0, 0) == spec_byte_varint_rec(
                    self.bytes@,
                    self.ptr as int,
                    count as nat,
                    result,
                ),
            decreases 5 - count,
        {
            if count >= 5 {
                proof {
                    assert(spec_byte_varint_rec(self.bytes@, self.ptr as int, count as nat, result)
                        == Some((result, self.ptr as int)));
                }
                return Ok(result);
            }
            if self.ptr >= self.bytes.len() {
                proof {
                    assert(spec_byte_varint_rec(self.bytes@, self.ptr as int, count as nat, result)
                        is None);
                }
                return Err(BitReaderError::OutOfBytesError);
            }
            let ghost pre_ptr = self.ptr as int;
            let ghost pre_res = result;
            let ghost pre_count = count as nat;
            let b: u8 = self.bytes[self.ptr];
            self.ptr = self.ptr + 1;
            result = result | (((b & 127) as u32) << ((7 * count) as u32));
            count = count + 1;
            if b & 128 == 0 {
                proof {
                    assert(spec_byte_varint_rec(self.bytes@, pre_ptr, pre_count, pre_res) == Some(
                        (result, self.ptr as int),
                    ));
                }
                return Ok(result);
            }
            proof {
                assert(spec_byte_varint_rec(self.bytes@, pre_ptr, pre_count, pre_res)
                    == spec_byte_varint_rec(self.bytes@, self.ptr as int, count as nat, result));
            }
        }
    }
}

} // verus!
