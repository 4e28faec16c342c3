//! Typed property values, the value decoders that produce them, and the
//! per-entity property table.

use vstd::prelude::*;

verus! {

use crate::BitReaderError;
use crate::read_bits::Bitreader;
use crate::read_bits::spec_bit;
use crate::read_bits::spec_bits;
use crate::read_bits::spec_cstr;
use crate::read_bits::spec_varint32;
use crate::read_bits::spec_varint64;
use crate::read_bits::lemma_spec_bits_bound;

/// A decoded property value.  Values are opaque to the store; only semantic
/// enrichment pattern-matches a few variants.  Floating-point properties are
/// carried as their raw 32 wire bits.
#[derive(Debug, PartialEq)]
pub enum PropData {
    Bool(bool),
    I32(i32),
    U32(u32),
    U64(u64),
    String(String),
    FloatBits(u32),
}

/// Mathematical shadow of [`PropData`]: the string variant is a character
/// sequence.
pub enum PropView {
    Bool(bool),
    I32(i32),
    U32(u32),
    U64(u64),
    Str(Seq<char>),
    FloatBits(u32),
}

impl View for PropData {
    type V = PropView;

    open spec fn view(&self) -> PropView {
        match self {
            PropData::Bool(b) => PropView::Bool(*b),
            PropData::I32(v) => PropView::I32(*v),
            PropData::U32(v) => PropView::U32(*v),
            PropData::U64(v) => PropView::U64(*v),
            PropData::String(s) => PropView::Str(s@),
            PropData::FloatBits(v) => PropView::FloatBits(*v),
        }
    }
}

impl PropData {
    /// A copy equal to this value; written out so that verified callers
    /// know the value is preserved.
    pub fn duplicate(&self) -> (r: PropData)
        ensures
            r == *self,
    {
        match self {
            PropData::Bool(b) => PropData::Bool(*b),
            PropData::I32(v) => PropData::I32(*v),
            PropData::U32(v) => PropData::U32(*v),
            PropData::U64(v) => PropData::U64(*v),
            PropData::String(s) => PropData::String(s.clone()),
            PropData::FloatBits(v) => PropData::FloatBits(*v),
        }
    }
}

/// How one property's wire bits become a value.
#[derive(Debug, Clone, Copy, PartialEq, Eq)]
pub enum Decoder {
    /// One bit.
    Boolean,
    /// 32-bit variable-length integer.
    VarU32,
    /// 64-bit variable-length integer.
    VarU64,
    /// A fixed number of bits, at most 32.
    Fixed(u32),
    /// The raw 32 bits of a single-precision float.
    Float32,
    /// A zero-terminated string.
    Str,
}

/// The characters that the lossy UTF-8 conversion yields for a byte
/// sequence; a function of the bytes alone.
pub uninterp spec fn utf8_chars_of(bytes: Seq<u8>) -> Seq<char>;

/// Relies on `String::from_utf8_lossy` of std: the conversion depends on the
/// bytes alone, and an empty input gives an empty string.
#[verifier::external_body]
pub fn bytes_to_string(bytes: &Vec<u8>) -> (r: String)
    ensures
        r@ == utf8_chars_of(bytes@),
        bytes@.len() == 0 ==> r@.len() == 0,
{
    String::from_utf8_lossy(bytes.as_slice()).into_owned()
}

/// What `decoder` yields from the bits at `pos`: the value and the position
/// after it, or nothing if the stream is short or the decoder malformed.
pub open spec fn spec_decode_value(decoder: Decoder, bytes: Seq<u8>, pos: int) -> Option<
    (PropView, int),
> {
    match decoder {
        Decoder::Boolean => if pos + 1 > bytes.len() * 8 || pos < 0 {
            None
        } else {
            Some((PropView::Bool(spec_bit(bytes, pos) == 1), pos + 1))
        },
        Decoder::VarU32 => match spec_varint32(bytes, pos) {
            None => None,
            Some((v, end)) => Some((PropView::U32(v), end)),
        },
        Decoder::VarU64 => match spec_varint64(bytes, pos) {
            None => None,
            Some((v, end)) => Some((PropView::U64(v), end)),
        },
        Decoder::Fixed(w) => if w > 32 || pos < 0 || pos + w > bytes.len() * 8 {
            None
        } else {
            Some((PropView::U32(spec_bits(bytes, pos, w as nat) as u32), pos + w))
        },
        Decoder::Float32 => if pos < 0 || pos + 32 > bytes.len() * 8 {
            None
        } else {
            Some((PropView::FloatBits(spec_bits(bytes, pos, 32) as u32), pos + 32))
        },
        Decoder::Str => match spec_cstr(bytes, pos) {
            None => None,
            Some((s, end)) => Some((PropView::Str(utf8_chars_of(s)), end)),
        },
    }
}

impl Bitreader {
    /// Decodes one value with the given decoder.  Fails without moving the
    /// stream.
    pub fn decode(&mut self, decoder: &Decoder) -> (r: Result<PropData, BitReaderError>)
        requires
            old(self).wf(),
        ensures
            final(self).wf(),
            final(self).bytes@ == old(self).bytes@,
            match r {
                Ok(v) => spec_decode_value(*decoder, old(self).bytes@, old(self).pos as int)
                    == Some((v@, final(self).pos as int)),
                Err(e) => {
                    &&& spec_decode_value(*decoder, old(self).bytes@, old(self).pos as int)
                        is None
                    &&& final(self).pos == old(self).pos
                    &&& (e == BitReaderError::OutOfBitsError || e
                        == BitReaderError::MalformedMessage)
                },
            },
    {
        match decoder {
            Decoder::Boolean => match self.read_boolie() {
                Ok(b) => Ok(PropData::Bool(b)),
                Err(e) => Err(e),
            },
            Decoder::VarU32 => match self.read_varint() {
                Ok(v) => Ok(PropData::U32(v)),
                Err(e) => Err(e),
            },
            Decoder::VarU64 => match self.read_varint_u64() {
                Ok(v) => Ok(PropData::U64(v)),
                Err(e) => Err(e),
            },
            Decoder::Fixed(w) => {
                if *w > 32 {
                    Err(BitReaderError::MalformedMessage)
                } else {
                    match self.read_nbits(*w) {
                        Ok(v) => Ok(PropData::U32(v)),
                        Err(e) => Err(e),
                    }
                }
            },
            Decoder::Float32 => match self.read_nbits(32) {
                Ok(v) => Ok(PropData::FloatBits(v)),
                Err(e) => Err(e),
            },
            Decoder::Str => match self.read_string_bytes() {
                Ok(bytes) => Ok(PropData::String(bytes_to_string(&bytes))),
                Err(e) => Err(e),
            },
        }
    }
}

/// A property table: latest decoded value per property name, last write
/// wins.  Viewed as a map from the name's characters to the value.
pub struct PropMap {
    pub entries: Vec<(String, PropData)>,
}

/// The map an association list stands for, later entries overriding
/// earlier ones.
pub open spec fn entries_map(s: Seq<(String, PropData)>) -> Map<Seq<char>, PropView>
    decreases s.len(),
{
    if s.len() == 0 {
        Map::empty()
    } else {
        entries_map(s.drop_last()).insert(s.last().0@, s.last().1@)
    }
}

impl PropMap {
    pub open spec fn view(&self) -> Map<Seq<char>, PropView> {
        entries_map(self.entries@)
    }

    /// Keys are unique, so a linear scan agrees with the map view.
    pub open spec fn wf(&self) -> bool {
        forall|i: int, j: int|
            0 <= i < j < self.entries@.len() ==> #[trigger] self.entries@[i].0@ != #[trigger] self.entries@[j].0@
    }

    pub fn new() -> (r: PropMap)
        ensures
            r.wf(),
            r@ == Map::<Seq<char>, PropView>::empty(),
    {
        PropMap { entries: Vec::new() }
    }

    /// Stores `val` under `name`, replacing any earlier value.
    pub fn insert(&mut self, name: String, val: PropData)
        requires
            old(self).wf(),
        ensures
            final(self).wf(),
            final(self)@ == old(self)@.insert(name@, val@),
    {
        let n = self.entries.len();
        let mut i: usize = 0;
        while i < n
            invariant
                self == old(self),
                old(self).wf(),
                n == self.entries@.len(),
                i <= n,
                forall|j: int| 0 <= j < i ==> #[trigger] self.entries@[j].0@ != name@,
            decreases n - i,
        {
            if self.entries[i].0 == name {
                self.entries[i] = (name, val);
                proof {
                    let su = self.entries@;
                    let s0 = old(self).entries@;
                    assert(su =~= s0.update(i as int, su[i as int]));
                    lemma_entries_map_replace(s0, i as int, su[i as int]);
                    assert forall|a: int, b: int| 0 <= a < b < su.len() implies #[trigger] su[a].0@
                        != #[trigger] su[b].0@ by {
                        assert(s0[a].0@ != s0[b].0@);
                        assert(su[a].0@ == s0[a].0@ && su[b].0@ == s0[b].0@);
                    }
                }
                return ;
            }
            i = i + 1;
        }
        self.entries.push((name, val));
        proof {
            assert(self.entries@.drop_last() =~= old(self).entries@);
        }
    }

    /// The latest value stored under `name`, if any.
    pub fn get(&self, name: &String) -> (r: Option<&PropData>)
        requires
            self.wf(),
        ensures
            match r {
                Some(v) => self@.contains_key(name@) && v@ == self@[name@],
                None => !self@.contains_key(name@),
            },
    {
        let n = self.entries.len();
        let mut i: usize = 0;
        while i < n
            invariant
                self.wf(),
                n == self.entries@.len(),
                i <= n,
                forall|j: int| 0 <= j < i ==> #[trigger] self.entries@[j].0@ != name@,
            decreases n - i,
        {
            if self.entries[i].0 == *name {
                proof {
                    lemma_entries_map_index(self.entries@, i as int);
                }
                return Some(&self.entries[i].1);
            }
            i = i + 1;
        }
        proof {
            lemma_entries_map_absent(self.entries@, name@);
        }
        None
    }
}

/// Replacing the entry at `i` with one of the same name updates the map at
/// that name alone.
proof fn lemma_entries_map_replace(s: Seq<(String, PropData)>, i: int, e: (String, PropData))
    requires
        0 <= i < s.len(),
        e.0@ == s[i].0@,
        forall|a: int, b: int| 0 <= a < b < s.len() ==> #[trigger] s[a].0@ != #[trigger] s[b].0@,
    ensures
        entries_map(s.update(i, e)) == entries_map(s).insert(e.0@, e.1@),
    decreases s.len(),
{
    let su = s.update(i, e);
    if i == s.len() - 1 {
        assert(su.drop_last() =~= s.drop_last());
        assert(entries_map(s).insert(e.0@, e.1@) =~= entries_map(s.drop_last()).insert(
            e.0@,
            e.1@,
        ));
    } else {
        lemma_entries_map_replace(s.drop_last(), i, e);
        assert(su.drop_last() =~= s.drop_last().update(i, e));
        assert(su.last() == s.last());
        assert(s.last().0@ != e.0@);
        assert(entries_map(s.drop_last()).insert(e.0@, e.1@).insert(s.last().0@, s.last().1@)
            =~= entries_map(s.drop_last()).insert(s.last().0@, s.last().1@).insert(e.0@, e.1@));
    }
}

/// With unique names, the map holds exactly the value recorded at an
/// entry's index.
proof fn lemma_entries_map_index(s: Seq<(String, PropData)>, i: int)
    requires
        0 <= i < s.len(),
        forall|a: int, b: int| 0 <= a < b < s.len() ==> #[trigger] s[a].0@ != #[trigger] s[b].0@,
    ensures
        entries_map(s).contains_key(s[i].0@),
        entries_map(s)[s[i].0@] == s[i].1@,
    decreases s.len(),
{
    if i == s.len() - 1 {
    } else {
        lemma_entries_map_index(s.drop_last(), i);
        assert(s.last().0@ != s[i].0@);
    }
}

/// A name on no entry is not in the map.
proof fn lemma_entries_map_absent(s: Seq<(String, PropData)>, k: Seq<char>)
    requires
        forall|j: int| 0 <= j < s.len() ==> #[trigger] s[j].0@ != k,
    ensures
        !entries_map(s).contains_key(k),
    decreases s.len(),
{
    if s.len() > 0 {
        lemma_entries_map_absent(s.drop_last(), k);
    }
}

} // verus!
