//! Field paths and the operations that mutate them.
//!
//! A field path names one (possibly nested) property inside a class's schema
//! tree: up to seven small integer segments plus a cursor to the deepest
//! valid one.  A canonical-Huffman code over the bitstream selects, symbol
//! by symbol, which named operation to apply to a single working path; a
//! reserved symbol terminates the list.

use vstd::prelude::*;

verus! {

use crate::BitReaderError;
use crate::read_bits::Bitreader;
use crate::read_bits::spec_bit;
use crate::read_bits::spec_varint32;

/// Largest value one path segment may hold: segments are packed 14 bits
/// each into a cache key.
pub const MAX_PATH_SEGMENT: i32 = 16383;

/// The terminator symbol: it ends a path list without mutating the path.
pub const SYMBOL_FINISH: i32 = 1;

/// A position inside a class's nested property tree.
#[derive(Clone, Copy, Debug)]
pub struct FieldPath {
    /// Whether the walk that produced this path has ended; the canonical
    /// reset state starts it cleared.
    pub done: bool,
    /// The segments; only `path[0..=last]` are meaningful.
    pub path: [i32; 7],
    /// Index of the deepest valid segment.
    pub last: usize,
}

impl FieldPath {
    /// Segments are bounded for key packing, the first may rest at its
    /// canonical starting value −1, and slots beyond the cursor stay zero.
    pub open spec fn wf(&self) -> bool {
        &&& self.last < 7
        &&& -1 <= self.path@[0] <= MAX_PATH_SEGMENT
        &&& forall|i: int| 1 <= i < 7 ==> 0 <= #[trigger] self.path@[i] <= MAX_PATH_SEGMENT
        &&& forall|i: int| self.last < i < 7 ==> #[trigger] self.path@[i] == 0
    }
}

/// Increment the segment at the cursor by `add`.
pub open spec fn spec_seg_plus(path: Seq<i32>, last: nat, add: int, pos: int) -> Option<
    (Seq<i32>, nat, int),
> {
    let v = path[last as int] + add;
    if v > MAX_PATH_SEGMENT {
        None
    } else {
        Some((path.update(last as int, v as i32), last, pos))
    }
}

/// Increment the segment at the cursor by `predelta`, then push a new
/// segment holding `n`.
pub open spec fn spec_push(path: Seq<i32>, last: nat, predelta: int, n: int, pos: int) -> Option<
    (Seq<i32>, nat, int),
> {
    if last >= 6 || n > MAX_PATH_SEGMENT {
        None
    } else {
        let v = path[last as int] + predelta;
        if v > MAX_PATH_SEGMENT {
            None
        } else {
            Some(
                (
                    path.update(last as int, v as i32).update(last as int + 1, n as i32),
                    (last + 1) as nat,
                    pos,
                ),
            )
        }
    }
}

/// Pop `n` segments (zeroing them), then increment the new deepest segment.
pub open spec fn spec_pop_plus(path: Seq<i32>, last: nat, n: nat, pos: int) -> Option<
    (Seq<i32>, nat, int),
> {
    if n > last {
        None
    } else {
        let l2 = (last - n) as nat;
        let v = path[l2 as int] + 1;
        if v > MAX_PATH_SEGMENT {
            None
        } else {
            let zeroed = Seq::new(
                7,
                |i: int| if l2 < i && i <= last { 0i32 } else { path[i] },
            );
            Some((zeroed.update(l2 as int, v as i32), l2, pos))
        }
    }
}

/// What one non-terminator symbol does to a field path positioned at `pos`
/// of the bitstream: the new segments, the new cursor, and the stream
/// position after any operand the operation reads.  The named operations:
/// symbols 0, 2, 5 and 6 advance the deepest segment by one to four; 7
/// advances it by a read amount plus five; 3 and 4 push a zero segment,
/// advancing first or not; 8 and 9 push a read segment likewise; 10 pops
/// one segment, 11 pops to the root and 12 pops a read count, each then
/// advancing the new deepest segment.  `None` is a failed operation: an
/// unknown symbol, a missing operand, or a segment or depth out of range.
pub open spec fn spec_do_op(
    sym: i32,
    bytes: Seq<u8>,
    pos: int,
    path: Seq<i32>,
    last: nat,
) -> Option<(Seq<i32>, nat, int)> {
    if sym == 0 {
        spec_seg_plus(path, last, 1, pos)
    } else if sym == 2 {
        spec_seg_plus(path, last, 2, pos)
    } else if sym == 5 {
        spec_seg_plus(path, last, 3, pos)
    } else if sym == 6 {
        spec_seg_plus(path, last, 4, pos)
    } else if sym == 7 {
        match spec_varint32(bytes, pos) {
            None => None,
            Some((n, end)) => spec_seg_plus(path, last, n + 5, end),
        }
    } else if sym == 3 {
        spec_push(path, last, 1, 0, pos)
    } else if sym == 4 {
        spec_push(path, last, 0, 0, pos)
    } else if sym == 8 {
        match spec_varint32(bytes, pos) {
            None => None,
            Some((n, end)) => spec_push(path, last, 0, n as int, end),
        }
    } else if sym == 9 {
        match spec_varint32(bytes, pos) {
            None => None,
            Some((n, end)) => spec_push(path, last, 1, n as int, end),
        }
    } else if sym == 10 {
        spec_pop_plus(path, last, 1, pos)
    } else if sym == 11 {
        spec_pop_plus(path, last, last, pos)
    } else if sym == 12 {
        match spec_varint32(bytes, pos) {
            None => None,
            Some((n, end)) => spec_pop_plus(path, last, n as nat, end),
        }
    } else {
        None
    }
}

/// The error a failed operation reports: a missing variable-length operand
/// is an exhausted stream; everything else is a malformed message.
pub open spec fn spec_do_op_err(sym: i32, bytes: Seq<u8>, pos: int) -> BitReaderError {
    if (sym == 7 || sym == 8 || sym == 9 || sym == 12) && spec_varint32(bytes, pos) is None {
        BitReaderError::OutOfBitsError
    } else {
        BitReaderError::MalformedMessage
    }
}

/// Applies one decoded symbol to the working path, reading the operation's
/// operand (if any) from the bitstream.  Fails without moving the stream or
/// the path.
pub fn do_op(sym: i32, bitreader: &mut Bitreader, fp: &mut FieldPath) -> (r: Result<
    (),
    BitReaderError,
>)
    requires
        old(fp).wf(),
        old(bitreader).wf(),
    ensures
        final(bitreader).wf(),
        final(bitreader).bytes@ == old(bitreader).bytes@,
        final(fp).done == old(fp).done,
        match r {
            Ok(_) => {
                &&& final(fp).wf()
                &&& final(bitreader).pos >= old(bitreader).pos
                &&& spec_do_op(
                    sym,
                    old(bitreader).bytes@,
                    old(bitreader).pos as int,
                    old(fp).path@,
                    old(fp).last as nat,
                ) == Some((final(fp).path@, final(fp).last as nat, final(bitreader).pos as int))
            },
            Err(e) => {
                &&& spec_do_op(
                    sym,
                    old(bitreader).bytes@,
                    old(bitreader).pos as int,
                    old(fp).path@,
                    old(fp).last as nat,
                ) is None
                &&& *final(fp) == *old(fp)
                &&& final(bitreader).pos == old(bitreader).pos
                &&& e == spec_do_op_err(sym, old(bitreader).bytes@, old(bitreader).pos as int)
            },
        },
{
    if sym == 0 || sym == 2 || sym == 5 || sym == 6 {
        let add: i32 = if sym == 0 {
            1
        } else if sym == 2 {
            2
        } else if sym == 5 {
            3
        } else {
            4
        };
        seg_plus(fp, add)
    } else if sym == 7 {
        let pre: usize = bitreader.pos;
        match bitreader.read_varint() {
            Err(e) => Err(e),
            Ok(n) => {
                let r = seg_plus_big(fp, n as i64 + 5);
                if r.is_err() {
                    bitreader.pos = pre;
                }
                r
            },
        }
    } else if sym == 3 {
        push_op(fp, 1, 0)
    } else if sym == 4 {
        push_op(fp, 0, 0)
    } else if sym == 8 || sym == 9 {
        let pre: usize = bitreader.pos;
        let predelta: i32 = if sym == 8 {
            0
        } else {
            1
        };
        match bitreader.read_varint() {
            Err(e) => Err(e),
            Ok(n) => {
                let r = if n > MAX_PATH_SEGMENT as u32 {
                    Err(BitReaderError::MalformedMessage)
                } else {
                    push_op(fp, predelta, n as i32)
                };
                if r.is_err() {
                    bitreader.pos = pre;
                }
                r
            },
        }
    } else if sym == 10 {
        pop_plus(fp, 1)
    } else if sym == 11 {
        let n: usize = fp.last;
        pop_plus(fp, n)
    } else if sym == 12 {
        let pre: usize = bitreader.pos;
        match bitreader.read_varint() {
            Err(e) => Err(e),
            Ok(n) => {
                let r = if n as u64 > fp.last as u64 {
                    Err(BitReaderError::MalformedMessage)
                } else {
                    pop_plus(fp, n as usize)
                };
                if r.is_err() {
                    bitreader.pos = pre;
                }
                r
            },
        }
    } else {
        Err(BitReaderError::MalformedMessage)
    }
}

/// Shared body of the four fixed increments.
fn seg_plus(fp: &mut FieldPath, add: i32) -> (r: Result<(), BitReaderError>)
    requires
        old(fp).wf(),
        1 <= add <= 4,
    ensures
        final(fp).done == old(fp).done,
        match r {
            Ok(_) => {
                &&& final(fp).wf()
                &&& spec_seg_plus(old(fp).path@, old(fp).last as nat, add as int, 0) == Some(
                    (final(fp).path@, final(fp).last as nat, 0int),
                )
            },
            Err(e) => {
                &&& spec_seg_plus(old(fp).path@, old(fp).last as nat, add as int, 0) is None
                &&& *final(fp) == *old(fp)
                &&& e == BitReaderError::MalformedMessage
            },
        },
{
    seg_plus_big(fp, add as i64)
}

/// Increment with an operand that may exceed `i32`.
fn seg_plus_big(fp: &mut FieldPath, add: i64) -> (r: Result<(), BitReaderError>)
    requires
        old(fp).wf(),
        0 <= add <= 0x2_0000_0000,
    ensures
        final(fp).done == old(fp).done,
        match r {
            Ok(_) => {
                &&& final(fp).wf()
                &&& spec_seg_plus(old(fp).path@, old(fp).last as nat, add as int, 0) == Some(
                    (final(fp).path@, final(fp).last as nat, 0int),
                )
            },
            Err(e) => {
                &&& spec_seg_plus(old(fp).path@, old(fp).last as nat, add as int, 0) is None
                &&& *final(fp) == *old(fp)
                &&& e == BitReaderError::MalformedMessage
            },
        },
{
    let cur: i32 = fp.path[fp.last];
    let sum: i64 = cur as i64 + add;
    if sum > MAX_PATH_SEGMENT as i64 {
        return Err(BitReaderError::MalformedMessage);
    }
    fp.path[fp.last] = sum as i32;
    proof {
        assert(fp.path@ =~= old(fp).path@.update(
            old(fp).last as int,
            (old(fp).path@[old(fp).last as int] + add) as i32,
        ));
    }
    Ok(())
}

/// Increment at the cursor by `predelta`, then push `n` as a new segment.
fn push_op(fp: &mut FieldPath, predelta: i32, n: i32) -> (r: Result<(), BitReaderError>)
    requires
        old(fp).wf(),
        0 <= predelta <= 1,
        0 <= n <= MAX_PATH_SEGMENT,
    ensures
        final(fp).done == old(fp).done,
        match r {
            Ok(_) => {
                &&& final(fp).wf()
                &&& spec_push(old(fp).path@, old(fp).last as nat, predelta as int, n as int, 0)
                    == Some((final(fp).path@, final(fp).last as nat, 0int))
            },
            Err(e) => {
                &&& spec_push(old(fp).path@, old(fp).last as nat, predelta as int, n as int, 0)
                    is None
                &&& *final(fp) == *old(fp)
                &&& e == BitReaderError::MalformedMessage
            },
        },
{
    if fp.last >= 6 {
        return Err(BitReaderError::MalformedMessage);
    }
    let cur: i32 = fp.path[fp.last];
    let sum: i64 = cur as i64 + predelta as i64;
    if sum > MAX_PATH_SEGMENT as i64 {
        return Err(BitReaderError::MalformedMessage);
    }
    fp.path[fp.last] = sum as i32;
    fp.last = fp.last + 1;
    fp.path[fp.last] = n;
    proof {
        assert(fp.path@ =~= old(fp).path@.update(
            old(fp).last as int,
            (old(fp).path@[old(fp).last as int] + predelta) as i32,
        ).update(old(fp).last + 1, n as i32));
    }
    Ok(())
}

/// Pop `n` segments, zeroing them, then increment the new deepest one.
fn pop_plus(fp: &mut FieldPath, n: usize) -> (r: Result<(), BitReaderError>)
    requires
        old(fp).wf(),
    ensures
        final(fp).done == old(fp).done,
        match r {
            Ok(_) => {
                &&& final(fp).wf()
                &&& spec_pop_plus(old(fp).path@, old(fp).last as nat, n as nat, 0) == Some(
                    (final(fp).path@, final(fp).last as nat, 0int),
                )
            },
            Err(e) => {
                &&& spec_pop_plus(old(fp).path@, old(fp).last as nat, n as nat, 0) is None
                &&& *final(fp) == *old(fp)
                &&& e == BitReaderError::MalformedMessage
            },
        },
{
    if n > fp.last {
        return Err(BitReaderError::MalformedMessage);
    }
    let l2: usize = fp.last - n;
    let cur: i32 = fp.path[l2];
    if cur >= MAX_PATH_SEGMENT {
        return Err(BitReaderError::MalformedMessage);
    }
    let mut j: usize = l2 + 1;
    while j <= fp.last
        invariant
            old(fp).wf(),
            l2 + 1 <= j <= old(fp).last + 1,
            l2 == old(fp).last - n,
            n <= old(fp).last,
            fp.last == old(fp).last,
            fp.done == old(fp).done,
            forall|i: int| 0 <= i < j ==> #[trigger] fp.path@[i] == (if l2 < i {
                0i32
            } else {
                old(fp).path@[i]
            }),
            forall|i: int| j <= i < 7 ==> #[trigger] fp.path@[i] == old(fp).path@[i],
        decreases 7 - j,
    {
        fp.path[j] = 0;
        j = j + 1;
    }
    fp.path[l2] = cur + 1;
    fp.last = l2;
    proof {
        let zeroed = Seq::new(
            7,
            |i: int| if l2 < i && i <= old(fp).last { 0i32 } else { old(fp).path@[i] },
        );
        assert(fp.path@ =~= zeroed.update(
            l2 as int,
            (old(fp).path@[l2 as int] + 1) as i32,
        ));
    }
    Ok(())
}

/// The canonical-Huffman decode table as a function of the accumulated code
/// value: the symbol whose code's bits spell that value, or −1 where no code
/// is complete yet.  The code "0" belongs to the most frequent symbol, so no
/// two reachable prefixes share an accumulated value.
pub open spec fn spec_huff_symbol(v: int) -> i32 {
    if v == 0 {
        0
    } else if v == 2 {
        1
    } else if v == 12 {
        2
    } else if v == 13 {
        3
    } else if v == 14 {
        4
    } else if v == 120 {
        5
    } else if v == 121 {
        6
    } else if v == 122 {
        7
    } else if v == 123 {
        8
    } else if v == 124 {
        9
    } else if v == 125 {
        10
    } else if v == 126 {
        11
    } else if v == 127 {
        12
    } else {
        -1i32
    }
}

/// Executable twin of [`spec_huff_symbol`].
pub fn huff_symbol(v: usize) -> (s: i32)
    ensures
        s == spec_huff_symbol(v as int),
{
    if v == 0 {
        0
    } else if v == 2 {
        1
    } else if v == 12 {
        2
    } else if v == 13 {
        3
    } else if v == 14 {
        4
    } else if v == 120 {
        5
    } else if v == 121 {
        6
    } else if v == 122 {
        7
    } else if v == 123 {
        8
    } else if v == 124 {
        9
    } else if v == 125 {
        10
    } else if v == 126 {
        11
    } else if v == 127 {
        12
    } else {
        -1
    }
}

/// Builds the flat decode table, one slot per possible accumulated value of
/// up to seven code bits; unused slots hold the sentinel −1.
pub fn build_huffman_table() -> (t: Vec<i32>)
    ensures
        t@.len() == 128,
        forall|v: int| 0 <= v < 128 ==> #[trigger] t@[v] == spec_huff_symbol(v),
{
    let mut t: Vec<i32> = Vec::new();
    let mut v: usize = 0;
    while v < 128
        invariant
            t@.len() == v,
            v <= 128,
            forall|i: int| 0 <= i < v ==> #[trigger] t@[i] == spec_huff_symbol(i),
        decreases 128 - v,
    {
        t.push(huff_symbol(v));
        v = v + 1;
    }
    t
}

/// Reading one symbol from `pos`: bits accumulate most-significant first
/// into `val`; the walk ends as soon as the table knows the value, and fails
/// once seven bits gave no symbol or the stream ran dry.
pub open spec fn spec_read_symbol(bytes: Seq<u8>, pos: int, val: u64, fuel: nat) -> Result<
    (i32, int),
    BitReaderError,
>
    decreases fuel,
{
    if fuel == 0 {
        Err(BitReaderError::MalformedMessage)
    } else if pos < 0 || pos >= bytes.len() * 8 {
        Err(BitReaderError::OutOfBitsError)
    } else {
        let v2 = (val << 1u64) | spec_bit(bytes, pos);
        if v2 >= 128 {
            Err(BitReaderError::MalformedMessage)
        } else if spec_huff_symbol(v2 as int) != -1 {
            Ok((spec_huff_symbol(v2 as int), pos + 1))
        } else {
            spec_read_symbol(bytes, pos + 1, v2, (fuel - 1) as nat)
        }
    }
}

/// Reads one Huffman symbol: one bit at a time, probing the table at the
/// accumulated value until it names a symbol.  Fails without moving the
/// stream.
pub fn read_symbol(table: &Vec<i32>, bitreader: &mut Bitreader) -> (r: Result<i32, BitReaderError>)
    requires
        old(bitreader).wf(),
        table@.len() == 128,
        forall|v: int| 0 <= v < 128 ==> #[trigger] table@[v] == spec_huff_symbol(v),
    ensures
        final(bitreader).wf(),
        final(bitreader).bytes@ == old(bitreader).bytes@,
        match r {
            Ok(s) => spec_read_symbol(old(bitreader).bytes@, old(bitreader).pos as int, 0, 7)
                == Ok::<(i32, int), BitReaderError>((s, final(bitreader).pos as int))
                && final(bitreader).pos > old(bitreader).pos,
            Err(e) => {
                &&& spec_read_symbol(old(bitreader).bytes@, old(bitreader).pos as int, 0, 7)
                    == Err::<(i32, int), BitReaderError>(e)
                &&& final(bitreader).pos == old(bitreader).pos
            },
        },
{
    let start: usize = bitreader.pos;
    let mut val: u64 = 0;
    let mut i: u32 = 0;
    proof {
        assert((1u64 << 0u32) == 1) by (bit_vector);
    }
    loop
        invariant
            bitreader.wf(),
            bitreader.bytes@ == old(bitreader).bytes@,
            start == old(bitreader).pos,
            start <= bitreader.spec_nbits(),
            bitreader.pos == start + i,
            i <= 7,
            val < (1u64 << i),
            table@.len() == 128,
            forall|v: int| 0 <= v < 128 ==> #[trigger] table@[v] == spec_huff_symbol(v),
            spec_read_symbol(bitreader.bytes@, start as int, 0, 7) == spec_read_symbol(
                bitreader.bytes@,
                bitreader.pos as int,
                val,
                (7 - i) as nat,
            ),
        decreases 7 - i,
    {
        if i >= 7 {
            proof {
                assert(spec_read_symbol(bitreader.bytes@, bitreader.pos as int, val, 0)
                    == Err::<(i32, int), BitReaderError>(BitReaderError::MalformedMessage));
            }
            bitreader.pos = start;
            return Err(BitReaderError::MalformedMessage);
        }
        let ghost pre_pos = bitreader.pos as int;
        let ghost pre_val = val;
        let b = match bitreader.read_boolie() {
            Ok(b) => b,
            Err(e) => {
                bitreader.pos = start;
                return Err(e);
            },
        };
        proof {
            assert(val < 64 ==> (val << 1u64) | 1u64 < 128 && (val << 1u64) | 0u64 < 128 && (val
                << 1u64) | 1u64 == val * 2 + 1 && (val << 1u64) | 0u64 == val * 2) by (bit_vector);
            assert((1u64 << i) <= 64 ==> val < 64) by (bit_vector)
                requires
                    val < (1u64 << i),
            ;
            assert(i <= 6 ==> (1u64 << i) <= 64) by (bit_vector);
            crate::read_bits::lemma_spec_bit_le_one(bitreader.bytes@, pre_pos);
        }
        val = (val << 1u64) | (if b {
            1u64
        } else {
            0u64
        });
        let sym = table[val as usize];
        proof {
            let v2 = (pre_val << 1u64) | spec_bit(bitreader.bytes@, pre_pos);
            assert(v2 == val);
            assert((1u64 << ((i + 1) as u64)) == 2 * (1u64 << i) || i >= 7) by (bit_vector);
        }
        if sym != -1 {
            return Ok(sym);
        }
        i = i + 1;
    }
}

} // verus!
