//! The parse session: all mutable decoding state, owned by one `Parser`.

use vstd::prelude::*;

verus! {

broadcast use vstd::std_specs::hash::group_hash_axioms;

use std::collections::HashMap;
use vstd::string::StrSliceExecFns;
use std::collections::HashSet;

use crate::entities::Entity;
use crate::entities::PathVariant;
use crate::entities::PlayerMetaData;
use crate::class::Class;
use crate::entities_utils::build_huffman_table;
use crate::entities_utils::spec_huff_symbol;
use crate::sendtables::SerFieldV;
use crate::sendtables::Serializer;
use crate::variants::Decoder;
use crate::read_bits::MAX_STREAM_BYTES;

/// Most paths one entity update may carry; more is a protocol violation.
pub const MAX_PATHS: usize = 1024;

/// One parse session: registries, the live entity table, and the scratch
/// state of the decoding loop.
pub struct Parser {
    /// The outer byte stream and its cursor.
    pub bytes: Vec<u8>,
    pub ptr: usize,
    /// Entity parsing can be switched off; the entry points then do nothing.
    pub parse_entities: bool,
    /// Schemas keyed by class network name, registered by the collaborator
    /// that parses the schema messages.
    pub serializers: Vec<(String, Serializer)>,
    /// The class registry, keyed by class id.
    pub cls_by_id: HashMap<u32, Class>,
    /// Bit width of a class id on the wire, fixed once classes are known.
    pub cls_bits: Option<u32>,
    /// Per-class default-value blobs.
    pub baselines: HashMap<u32, Vec<u8>>,
    /// The live entity table.
    pub entities: HashMap<i32, Entity>,
    /// Entity ids of projectile-family entities.
    pub projectiles: HashSet<i32>,
    /// Player records from semantic enrichment, keyed by pawn entity id.
    pub players: HashMap<i32, PlayerMetaData>,
    /// The singleton game-rules entity, once seen.
    pub rules_entity_id: Option<i32>,
    /// Memoized path resolution: packed (class, path) key to the resolved
    /// property name and decoder.
    pub pattern_cache: HashMap<u64, (String, Decoder)>,
    /// Scratch buffer of the paths of the current update.
    pub paths: Vec<PathVariant>,
    /// Flat canonical-Huffman decode table.
    pub huffman_codes: Vec<i32>,
}

/// The abstract class table, keyed by class id.
pub open spec fn cls_view(m: Map<u32, Class>) -> Map<u32, crate::class::ClsV> {
    Map::new(|k: u32| m.contains_key(k), |k: u32| m[k]@)
}

/// The abstract schema registry: name to schema.
pub open spec fn ser_lookup(s: Seq<(String, Serializer)>, name: Seq<char>) -> Option<Seq<SerFieldV>>
    decreases s.len(),
{
    if s.len() == 0 {
        None
    } else if s[0].0@ == name {
        Some(s[0].1@)
    } else {
        ser_lookup(s.subrange(1, s.len() as int), name)
    }
}

impl Parser {
    pub open spec fn wf(&self) -> bool {
        &&& self.huffman_codes@.len() == 128
        &&& forall|v: int|
            0 <= v < 128 ==> #[trigger] self.huffman_codes@[v] == spec_huff_symbol(v)
        &&& match self.cls_bits {
            Some(b) => b <= 32,
            None => true,
        }
        &&& forall|id: i32|
            self.entities@.contains_key(id) ==> (#[trigger] self.entities@[id]).props.wf()
                && self.entities@[id].entity_id == id
        &&& forall|k: u32|
            self.baselines@.contains_key(k) ==> (#[trigger] self.baselines@[k])@.len()
                <= MAX_STREAM_BYTES
    }

    /// A fresh session over one recording's bytes.
    pub fn new(bytes: Vec<u8>, parse_entities: bool) -> (r: Parser)
        ensures
            r.wf(),
            r.bytes@ == bytes@,
            r.ptr == 0,
            r.parse_entities == parse_entities,
            r.serializers@.len() == 0,
            r.cls_by_id@ == Map::<u32, Class>::empty(),
            r.cls_bits is None,
            r.baselines@ == Map::<u32, Vec<u8>>::empty(),
            r.entities@ == Map::<i32, Entity>::empty(),
            r.projectiles@ == Set::<i32>::empty(),
            r.players@ == Map::<i32, PlayerMetaData>::empty(),
            r.rules_entity_id is None,
            r.pattern_cache@ == Map::<u64, (String, Decoder)>::empty(),
    {
        Parser {
            bytes,
            ptr: 0,
            parse_entities,
            serializers: Vec::new(),
            cls_by_id: HashMap::new(),
            cls_bits: None,
            baselines: HashMap::new(),
            entities: HashMap::new(),
            projectiles: HashSet::new(),
            players: HashMap::new(),
            rules_entity_id: None,
            pattern_cache: HashMap::new(),
            paths: Vec::new(),
            huffman_codes: build_huffman_table(),
        }
    }

    /// Registers a schema under its class network name; a later
    /// registration under the same name shadows the earlier one.
    pub fn register_serializer(&mut self, name: String, serializer: Serializer)
        requires
            old(self).wf(),
        ensures
            final(self).wf(),
            forall|n: Seq<char>|
                #[trigger] ser_lookup(final(self).serializers@, n) == if n == name@ {
                    Some(serializer@)
                } else {
                    ser_lookup(old(self).serializers@, n)
                },
            final(self).bytes@ == old(self).bytes@,
            final(self).ptr == old(self).ptr,
            final(self).parse_entities == old(self).parse_entities,
            final(self).cls_by_id == old(self).cls_by_id,
            final(self).cls_bits == old(self).cls_bits,
            final(self).baselines == old(self).baselines,
            final(self).entities == old(self).entities,
            final(self).projectiles == old(self).projectiles,
            final(self).players == old(self).players,
            final(self).rules_entity_id == old(self).rules_entity_id,
            final(self).pattern_cache == old(self).pattern_cache,
    {
        self.serializers.insert(0, (name, serializer));
        proof {
            assert(self.serializers@.subrange(1, self.serializers@.len() as int) =~= old(
                self,
            ).serializers@);
        }
    }

    /// Registers (or refreshes) the baseline blob for a class id.
    pub fn set_baseline(&mut self, cls_id: u32, baseline: Vec<u8>)
        requires
            old(self).wf(),
            baseline@.len() <= MAX_STREAM_BYTES,
        ensures
            final(self).wf(),
            final(self).baselines@ == old(self).baselines@.insert(cls_id, baseline),
            final(self).bytes@ == old(self).bytes@,
            final(self).ptr == old(self).ptr,
            final(self).parse_entities == old(self).parse_entities,
            final(self).serializers == old(self).serializers,
            final(self).cls_by_id == old(self).cls_by_id,
            final(self).cls_bits == old(self).cls_bits,
            final(self).entities == old(self).entities,
            final(self).projectiles == old(self).projectiles,
            final(self).players == old(self).players,
            final(self).rules_entity_id == old(self).rules_entity_id,
            final(self).pattern_cache == old(self).pattern_cache,
    {
        self.baselines.insert(cls_id, baseline);
    }
}

/// A fresh copy of a byte vector.
pub fn clone_bytes(v: &Vec<u8>) -> (r: Vec<u8>)
    ensures
        r@ == v@,
{
    let n = v.len();
    let mut out: Vec<u8> = Vec::new();
    let mut i: usize = 0;
    while i < n
        invariant
            n == v@.len(),
            i <= n,
            out@.len() == i,
            forall|j: int| 0 <= j < i ==> #[trigger] out@[j] == v@[j],
        decreases n - i,
    {
        out.push(v[i]);
        i = i + 1;
    }
    proof {
        assert(out@ =~= v@);
    }
    out
}

/// Whether `s` reads exactly as the literal `lit`.
pub fn str_is(s: &String, lit: &str) -> (r: bool)
    ensures
        r == (s@ == lit@),
{
    let l: String = lit.to_owned();
    *s == l
}

/// Whether `h` contains `n` as a contiguous subsequence.
pub open spec fn spec_str_contains(h: Seq<char>, n: Seq<char>) -> bool {
    exists|i: int| 0 <= i && i + n.len() <= h.len() && #[trigger] h.subrange(i, i + n.len()) == n
}

/// The characters of `s`, as a vector.
pub fn str_chars(s: &str) -> (r: Vec<char>)
    ensures
        r@ == s@,
{
    let n = s.unicode_len();
    let mut out: Vec<char> = Vec::new();
    let mut i: usize = 0;
    while i < n
        invariant
            n == s@.len(),
            i <= n,
            out@.len() == i,
            forall|j: int| 0 <= j < i ==> #[trigger] out@[j] == s@[j],
        decreases n - i,
    {
        out.push(s.get_char(i));
        i = i + 1;
    }
    proof {
        assert(out@ =~= s@);
    }
    out
}

/// Substring search over the characters of the two strings.
pub fn str_contains(hay: &str, needle: &str) -> (r: bool)
    ensures
        r == spec_str_contains(hay@, needle@),
{
    let hb: Vec<char> = str_chars(hay);
    let nb: Vec<char> = str_chars(needle);
    let hlen = hb.len();
    let nlen = nb.len();
    if nlen > hlen {
        return false;
    }
    if nlen == 0 {
        proof {
            assert(hb@.subrange(0, 0 + nb@.len() as int) =~= nb@);
            assert(spec_str_contains(hay@, needle@));
        }
        return true;
    }
    let mut i: usize = 0;
    while i <= hlen - nlen
        invariant
            hb@ == hay@,
            nb@ == needle@,
            hlen == hb@.len(),
            nlen == nb@.len(),
            1 <= nlen <= hlen,
            i <= hlen - nlen + 1,
            forall|a: int|
                0 <= a < i ==> #[trigger] hb@.subrange(a, a + nlen) != nb@,
        decreases hlen - nlen + 1 - i,
    {
        let mut j: usize = 0;
        let mut hit: bool = true;
        while j < nlen
            invariant
                hb@ == hay@,
                nb@ == needle@,
                hlen == hb@.len(),
                nlen == nb@.len(),
                i + nlen <= hlen,
                j <= nlen,
                hit ==> forall|b: int| 0 <= b < j ==> #[trigger] hb@[i + b] == nb@[b],
                !hit ==> hb@.subrange(i as int, i + nlen) != nb@,
            decreases nlen - j,
        {
            if hb[i + j] != nb[j] {
                proof {
                    assert(hb@.subrange(i as int, i + nlen)[j as int] == hb@[i + j]);
                }
                hit = false;
                j = nlen;
            } else {
                j = j + 1;
            }
        }
        if hit {
            proof {
                assert forall|b: int| 0 <= b < nlen implies hb@.subrange(i as int, i + nlen)[b]
                    == nb@[b] by {
                    assert(hb@[i + b] == nb@[b]);
                }
                assert(hb@.subrange(i as int, i + nlen) =~= nb@);
            }
            return true;
        }
        i = i + 1;
    }
    proof {
        assert forall|a: int| 0 <= a && a + nb@.len() <= hb@.len() implies #[trigger] hb@.subrange(
            a,
            a + nb@.len(),
        ) != nb@ by {
            assert(a < hlen - nlen + 1);
        }
    }
    false
}

/// The least bit width that can address `n` distinct class ids.
pub fn ceil_log2(n: usize) -> (r: u32)
    ensures
        r <= 64,
        r < 64 ==> n <= (1u64 << r),
        forall|k: u32| k < r ==> (1u64 << k) < n,
{
    let mut b: u32 = 0;
    while b < 64 && (1u64 << b) < n as u64
        invariant
            b <= 64,
            forall|k: u32| k < b ==> (1u64 << k) < n,
        decreases 64 - b,
    {
        b = b + 1;
    }
    b
}

} // verus!
