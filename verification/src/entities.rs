//! The entity store and lifecycle controller.
//!
//! Consumes packet-entity messages: reconstructs entity ids from deltas,
//! creates, updates and deletes entities, seeds new entities from their
//! class baseline, and stores decoded property values.

use vstd::prelude::*;

verus! {

broadcast use vstd::std_specs::hash::group_hash_axioms;

use crate::BitReaderError;
use crate::read_bits::Bitreader;
use crate::read_bits::spec_bit;
use crate::read_bits::spec_bits;
use crate::read_bits::spec_varint32;
use crate::read_bits::spec_ubitvar_len;
use crate::read_bits::spec_ubitvar_value;
use crate::entities_utils::FieldPath;
use crate::entities_utils::SYMBOL_FINISH;
use crate::entities_utils::do_op;
use crate::entities_utils::read_symbol;
use crate::entities_utils::spec_do_op;
use crate::entities_utils::spec_do_op_err;
use crate::entities_utils::spec_read_symbol;
use crate::parser_settings::MAX_PATHS;
use crate::parser_settings::Parser;
use crate::parser_settings::cls_view;
use crate::sendtables::Serializer;
use crate::sendtables::spec_find_decoder;
use crate::variants::Decoder;
use crate::variants::PropMap;
use crate::variants::PropView;
use crate::variants::spec_decode_value;

/// A live entity: its class, its id, and its property table.
pub struct Entity {
    pub cls_id: u32,
    pub entity_id: i32,
    pub props: PropMap,
}

/// Player bookkeeping derived from a controller entity's update.
#[derive(Debug)]
pub struct PlayerMetaData {
    pub player_entity_id: i32,
    pub steamid: u64,
    pub controller_entid: i32,
    pub name: String,
    pub team_num: i32,
}

/// One emitted path: either still raw, awaiting schema resolution, or
/// already resolved by the pattern cache to a property name and decoder.
#[derive(Debug)]
pub enum PathVariant {
    Normal(FieldPath),
    Cache(String, Decoder),
}

/// Mathematical shadow of [`PathVariant`].
pub enum PathVariantV {
    Normal(Seq<i32>, nat),
    Cache(Seq<char>, Decoder),
}

impl View for PathVariant {
    type V = PathVariantV;

    open spec fn view(&self) -> PathVariantV {
        match self {
            PathVariant::Normal(fp) => PathVariantV::Normal(fp.path@, fp.last as nat),
            PathVariant::Cache(n, d) => PathVariantV::Cache(n@, *d),
        }
    }
}

/// The canonical reset state of the working path: all segments zero but the
/// first, which rests at −1, cursor at the first.
pub fn generate_fp() -> (r: FieldPath)
    ensures
        r.wf(),
        r.done == false,
        r.last == 0,
        r.path@ =~= seq![-1i32, 0i32, 0i32, 0i32, 0i32, 0i32, 0i32],
{
    let r = FieldPath { done: false, path: [-1, 0, 0, 0, 0, 0, 0], last: 0 };
    proof {
        assert(r.path@ =~= seq![-1i32, 0i32, 0i32, 0i32, 0i32, 0i32, 0i32]);
    }
    r
}

/// A segment as its 64 key bits: the two's-complement image of the value.
pub open spec fn spec_seg_bits(v: i32) -> u64 {
    if v >= 0 {
        v as u64
    } else {
        (v + 0x1_0000_0000_0000_0000) as u64
    }
}

/// The key accumulation loop: each meaningful segment is OR-ed in and the
/// key shifted on by 14 bits.
pub open spec fn spec_key_from(path: Seq<i32>, idx: nat, last: nat, acc: u64) -> u64
    decreases last + 1 - idx when idx <= last + 1
{
    if idx > last {
        acc
    } else {
        spec_key_from(path, idx + 1, last, (acc | spec_seg_bits(path[idx as int])) << 14u64)
    }
}

/// The packed pattern-cache key of a path within a class.
pub open spec fn spec_path_key(path: Seq<i32>, last: nat, cls_id: i32) -> u64 {
    spec_key_from(path, 0, last, 0) | spec_seg_bits(cls_id)
}

/// Packs a path and its class id into the 64-bit pattern-cache key: 14 bits
/// per segment, in path order, the class id in the low bits.
pub fn path_to_key(field_path: &FieldPath, cls_id: i32) -> (r: u64)
    requires
        field_path.wf(),
    ensures
        r == spec_path_key(field_path.path@, field_path.last as nat, cls_id),
{
    let mut key: u64 = 0;
    let mut idx: usize = 0;
    while idx < field_path.last + 1
        invariant
            field_path.wf(),
            idx <= field_path.last + 1,
            spec_key_from(field_path.path@, 0, field_path.last as nat, 0) == spec_key_from(
                field_path.path@,
                idx as nat,
                field_path.last as nat,
                key,
            ),
        decreases field_path.last + 1 - idx,
    {
        let seg: i32 = field_path.path[idx];
        let segu: u64 = if seg >= 0 {
            seg as u64
        } else {
            u64::MAX
        };
        proof {
            assert(seg < 0 ==> seg == -1);
            assert(spec_seg_bits(-1i32) == u64::MAX);
        }
        key = (key | segu) << 14u64;
        idx = idx + 1;
    }
    let clsu: u64 = if cls_id >= 0 {
        cls_id as u64
    } else {
        proof {
            assert((cls_id as int + 0x1_0000_0000_0000_0000) as u64 == (cls_id as u64))
                by (bit_vector);
        }
        cls_id as u64
    };
    key | clsu
}

impl Parser {
    /// The latest decoded value of `prop` on entity `entity_id`, if the
    /// entity is live and the property was ever written.
    pub fn get_prop_for_ent(&self, prop: &str, entity_id: &i32) -> (r: Option<
        crate::variants::PropData,
    >)
        requires
            self.wf(),
        ensures
            match r {
                Some(v) => {
                    &&& self.entities@.contains_key(*entity_id)
                    &&& self.entities@[*entity_id].props@.contains_key(prop@)
                    &&& v@ == self.entities@[*entity_id].props@[prop@]
                },
                None => !self.entities@.contains_key(*entity_id)
                    || !self.entities@[*entity_id].props@.contains_key(prop@),
            },
    {
        match self.entities.get(entity_id) {
            Some(ent) => {
                let key: String = prop.to_owned();
                match ent.props.get(&key) {
                    Some(p) => Some(p.duplicate()),
                    None => None,
                }
            },
            None => None,
        }
    }
}

/// The field-path list that starts at `pos`, decoded against the pattern
/// cache of class `cls_id`: symbols mutate the working path until the
/// terminator; after each mutation the path (or its cached resolution) is
/// emitted.  `fuel` caps how many paths may still be emitted; `None` is any
/// failure: bits missing, a bad code, a failed operation, or too many
/// paths.
pub open spec fn spec_parse_paths(
    bytes: Seq<u8>,
    pos: int,
    path: Seq<i32>,
    last: nat,
    cls_id: i32,
    cache: Map<u64, (Seq<char>, Decoder)>,
    fuel: nat,
) -> Option<(Seq<PathVariantV>, int)>
    decreases fuel,
{
    match spec_read_symbol(bytes, pos, 0, 7) {
        Err(_) => None,
        Ok((sym, p1)) => {
            if sym == SYMBOL_FINISH {
                Some((Seq::empty(), p1))
            } else if fuel == 0 {
                None
            } else {
                match spec_do_op(sym, bytes, p1, path, last) {
                    None => None,
                    Some((path2, last2, p2)) => {
                        let key = spec_path_key(path2, last2, cls_id);
                        let pv = if cache.contains_key(key) {
                            PathVariantV::Cache(cache[key].0, cache[key].1)
                        } else {
                            PathVariantV::Normal(path2, last2)
                        };
                        match spec_parse_paths(
                            bytes,
                            p2,
                            path2,
                            last2,
                            cls_id,
                            cache,
                            (fuel - 1) as nat,
                        ) {
                            None => None,
                            Some((rest, end)) => Some((seq![pv] + rest, end)),
                        }
                    },
                }
            }
        },
    }
}

/// The error a failed path-list decode reports: the symbol reader's own
/// error, a malformed message once the path budget is spent, or the failing
/// operation's error.
pub open spec fn spec_parse_paths_err(
    bytes: Seq<u8>,
    pos: int,
    path: Seq<i32>,
    last: nat,
    fuel: nat,
) -> BitReaderError
    decreases fuel,
{
    match spec_read_symbol(bytes, pos, 0, 7) {
        Err(e) => e,
        Ok((sym, p1)) => {
            if sym == SYMBOL_FINISH || fuel == 0 {
                BitReaderError::MalformedMessage
            } else {
                match spec_do_op(sym, bytes, p1, path, last) {
                    None => spec_do_op_err(sym, bytes, p1),
                    Some((path2, last2, p2)) => spec_parse_paths_err(
                        bytes,
                        p2,
                        path2,
                        last2,
                        (fuel - 1) as nat,
                    ),
                }
            }
        },
    }
}

impl Parser {
    /// Decodes the field-path list of one entity update into the session's
    /// path buffer and yields how many paths it holds.  Raw paths are
    /// emitted well-formed; cached entries resolve through the pattern
    /// cache.  Only the path buffer changes; the bitstream ends just past
    /// the terminator symbol.
    pub fn parse_paths(&mut self, bitreader: &mut Bitreader, cls_id: i32) -> (r: Result<
        usize,
        BitReaderError,
    >)
        requires
            old(self).wf(),
            old(bitreader).wf(),
        ensures
            final(self).wf(),
            final(bitreader).wf(),
            final(bitreader).bytes@ == old(bitreader).bytes@,
            *final(self) == (Parser { paths: final(self).paths, ..*old(self) }),
            match r {
                Ok(n) => {
                    &&& n == final(self).paths@.len()
                    &&& n <= MAX_PATHS
                    &&& spec_parse_paths(
                        old(bitreader).bytes@,
                        old(bitreader).pos as int,
                        seq![-1i32, 0i32, 0i32, 0i32, 0i32, 0i32, 0i32],
                        0,
                        cls_id,
                        cache_view(old(self).pattern_cache@),
                        MAX_PATHS as nat,
                    ) == Some(
                        (
                            final(self).paths@.map_values(|p: PathVariant| p@),
                            final(bitreader).pos as int,
                        ),
                    )
                    &&& forall|j: int|
                        0 <= j < final(self).paths@.len() ==> (#[trigger] final(self).paths@[j]
                            matches PathVariant::Normal(fp) ==> fp.wf())
                },
                Err(e) => spec_parse_paths(
                    old(bitreader).bytes@,
                    old(bitreader).pos as int,
                    seq![-1i32, 0i32, 0i32, 0i32, 0i32, 0i32, 0i32],
                    0,
                    cls_id,
                    cache_view(old(self).pattern_cache@),
                    MAX_PATHS as nat,
                ) is None && e == spec_parse_paths_err(
                    old(bitreader).bytes@,
                    old(bitreader).pos as int,
                    seq![-1i32, 0i32, 0i32, 0i32, 0i32, 0i32, 0i32],
                    0,
                    MAX_PATHS as nat,
                ),
            },
    {
        self.paths.clear();
        let mut fp = generate_fp();
        loop
            invariant
                self.wf(),
                bitreader.wf(),
                bitreader.bytes@ == old(bitreader).bytes@,
                *self == (Parser { paths: self.paths, ..*old(self) }),
                fp.wf(),
                self.paths@.len() <= MAX_PATHS,
                spec_parse_paths(
                    old(bitreader).bytes@,
                    old(bitreader).pos as int,
                    seq![-1i32, 0i32, 0i32, 0i32, 0i32, 0i32, 0i32],
                    0,
                    cls_id,
                    cache_view(old(self).pattern_cache@),
                    MAX_PATHS as nat,
                ) == (match spec_parse_paths(
                    bitreader.bytes@,
                    bitreader.pos as int,
                    fp.path@,
                    fp.last as nat,
                    cls_id,
                    cache_view(old(self).pattern_cache@),
                    (MAX_PATHS - self.paths@.len()) as nat,
                ) {
                    None => None::<(Seq<PathVariantV>, int)>,
                    Some((rest, end)) => Some(
                        (self.paths@.map_values(|p: PathVariant| p@) + rest, end),
                    ),
                }),
                spec_parse_paths_err(
                    old(bitreader).bytes@,
                    old(bitreader).pos as int,
                    seq![-1i32, 0i32, 0i32, 0i32, 0i32, 0i32, 0i32],
                    0,
                    MAX_PATHS as nat,
                ) == spec_parse_paths_err(
                    bitreader.bytes@,
                    bitreader.pos as int,
                    fp.path@,
                    fp.last as nat,
                    (MAX_PATHS - self.paths@.len()) as nat,
                ),
                forall|j: int|
                    0 <= j < self.paths@.len() ==> (#[trigger] self.paths@[j] matches
                        PathVariant::Normal(f) ==> f.wf()),
            decreases bitreader.spec_nbits() - bitreader.pos + 1,
        {
            let sym = match read_symbol(&self.huffman_codes, bitreader) {
                Ok(s) => s,
                Err(e) => {
                    return Err(e);
                },
            };
            if sym == SYMBOL_FINISH {
                proof {
                    assert(self.paths@.map_values(|p: PathVariant| p@) + Seq::<
                        PathVariantV,
                    >::empty() =~= self.paths@.map_values(|p: PathVariant| p@));
                }
                return Ok(self.paths.len());
            }
            if self.paths.len() >= MAX_PATHS {
                return Err(BitReaderError::MalformedMessage);
            }
            match do_op(sym, bitreader, &mut fp) {
                Ok(_) => {},
                Err(e) => {
                    return Err(e);
                },
            }
            let key = path_to_key(&fp, cls_id);
            let ghost pre_paths = self.paths@;
            match self.pattern_cache.get(&key) {
                Some(entry) => {
                    self.paths.push(PathVariant::Cache(entry.0.clone(), entry.1));
                },
                None => {
                    self.paths.push(PathVariant::Normal(fp));
                },
            }
            proof {
                let mv = |p: PathVariant| p@;
                let pv = self.paths@[self.paths@.len() - 1]@;
                assert(self.paths@.map_values(mv) =~= pre_paths.map_values(mv).push(pv));
                assert forall|rest: Seq<PathVariantV>| true implies pre_paths.map_values(mv) + (
                seq![pv] + rest) =~= self.paths@.map_values(mv) + rest by {
                    assert(pre_paths.map_values(mv) + (seq![pv] + rest) =~= (pre_paths.map_values(
                        mv,
                    ).push(pv)) + rest);
                }
            }
        }
    }
}


/// Mathematical shadow of [`Entity`].
pub struct EntV {
    pub cls_id: u32,
    pub entity_id: i32,
    pub props: Map<Seq<char>, PropView>,
}

impl View for Entity {
    type V = EntV;

    open spec fn view(&self) -> EntV {
        EntV { cls_id: self.cls_id, entity_id: self.entity_id, props: self.props@ }
    }
}

/// The live entity table as mathematics.
pub open spec fn ent_view(m: Map<i32, Entity>) -> Map<i32, EntV> {
    Map::new(|k: i32| m.contains_key(k), |k: i32| m[k]@)
}

/// The player records as mathematics.
pub open spec fn players_view(m: Map<i32, PlayerMetaData>) -> Map<i32, PlayerV> {
    Map::new(|k: i32| m.contains_key(k), |k: i32| m[k]@)
}

/// The baseline store as mathematics.
pub open spec fn bl_view(m: Map<u32, Vec<u8>>) -> Map<u32, Seq<u8>> {
    Map::new(|k: u32| m.contains_key(k), |k: u32| m[k]@)
}

/// The pattern cache as mathematics: key to resolved name and decoder.
pub open spec fn cache_view(m: Map<u64, (String, Decoder)>) -> Map<u64, (Seq<char>, Decoder)> {
    Map::new(|k: u64| m.contains_key(k), |k: u64| (m[k].0@, m[k].1))
}

/// Application of an update's paths to a property table: each path resolves
/// (from the cache entry it was emitted with, or by the schema walk, which
/// also populates the cache), its value is decoded from the bits at `pos`,
/// and stored under its name.  In baseline mode the walk stops early once
/// fewer than 32 bits remain: baseline blobs may carry trailing padding.
pub open spec fn spec_apply_paths(
    paths: Seq<PathVariantV>,
    ser: Seq<crate::sendtables::SerFieldV>,
    props: Map<Seq<char>, PropView>,
    cache: Map<u64, (Seq<char>, Decoder)>,
    bytes: Seq<u8>,
    pos: int,
    is_baseline: bool,
    cls_id: i32,
) -> Option<(Map<Seq<char>, PropView>, Map<u64, (Seq<char>, Decoder)>, int)>
    decreases paths.len(),
{
    if paths.len() == 0 {
        Some((props, cache, pos))
    } else if is_baseline && bytes.len() * 8 - pos < 32 {
        Some((props, cache, pos))
    } else {
        match paths[0] {
            PathVariantV::Cache(name, dec) => match spec_decode_value(dec, bytes, pos) {
                None => None,
                Some((v, p2)) => spec_apply_paths(
                    paths.subrange(1, paths.len() as int),
                    ser,
                    props.insert(name, v),
                    cache,
                    bytes,
                    p2,
                    is_baseline,
                    cls_id,
                ),
            },
            PathVariantV::Normal(path, last) => match spec_find_decoder(
                ser,
                path,
                last,
                is_baseline,
            ) {
                None => None,
                Some((name, dec)) => match spec_decode_value(dec, bytes, pos) {
                    None => None,
                    Some((v, p2)) => spec_apply_paths(
                        paths.subrange(1, paths.len() as int),
                        ser,
                        props.insert(name, v),
                        cache.insert(spec_path_key(path, last, cls_id), (name, dec)),
                        bytes,
                        p2,
                        is_baseline,
                        cls_id,
                    ),
                },
            },
        }
    }
}

/// Generic property storage for one update: resolve, decode, store, and
/// remember resolutions in the pattern cache.
fn apply_update(
    paths: &Vec<PathVariant>,
    ser: &Serializer,
    props: &mut PropMap,
    cache: &mut std::collections::HashMap<u64, (String, Decoder)>,
    bitreader: &mut Bitreader,
    is_baseline: bool,
    cls_id: i32,
) -> (r: Result<(), BitReaderError>)
    requires
        old(props).wf(),
        old(bitreader).wf(),
        forall|j: int|
            0 <= j < paths@.len() ==> (#[trigger] paths@[j] matches PathVariant::Normal(fp)
                ==> fp.wf()),
    ensures
        final(props).wf(),
        final(bitreader).wf(),
        final(bitreader).bytes@ == old(bitreader).bytes@,
        match r {
            Ok(_) => spec_apply_paths(
                paths@.map_values(|p: PathVariant| p@),
                ser@,
                old(props)@,
                cache_view(old(cache)@),
                old(bitreader).bytes@,
                old(bitreader).pos as int,
                is_baseline,
                cls_id,
            ) == Some((final(props)@, cache_view(final(cache)@), final(bitreader).pos as int)),
            Err(_) => spec_apply_paths(
                paths@.map_values(|p: PathVariant| p@),
                ser@,
                old(props)@,
                cache_view(old(cache)@),
                old(bitreader).bytes@,
                old(bitreader).pos as int,
                is_baseline,
                cls_id,
            ) is None,
        },
{
    let ghost pv = paths@.map_values(|p: PathVariant| p@);
    let n = paths.len();
    let mut i: usize = 0;
    proof {
        assert(pv.subrange(0, n as int) =~= pv);
    }
    while i < n
        invariant
            props.wf(),
            bitreader.wf(),
            bitreader.bytes@ == old(bitreader).bytes@,
            n == paths@.len(),
            pv == paths@.map_values(|p: PathVariant| p@),
            i <= n,
            forall|j: int|
                0 <= j < paths@.len() ==> (#[trigger] paths@[j] matches PathVariant::Normal(fp)
                    ==> fp.wf()),
            spec_apply_paths(
                pv,
                ser@,
                old(props)@,
                cache_view(old(cache)@),
                old(bitreader).bytes@,
                old(bitreader).pos as int,
                is_baseline,
                cls_id,
            ) == spec_apply_paths(
                pv.subrange(i as int, n as int),
                ser@,
                props@,
                cache_view(cache@),
                old(bitreader).bytes@,
                bitreader.pos as int,
                is_baseline,
                cls_id,
            ),
        decreases n - i,
    {
        proof {
            assert(pv.subrange(i as int, n as int)[0] == pv[i as int]);
            assert(pv[i as int] == paths@[i as int]@);
            assert(pv.subrange(i as int, n as int).subrange(1, (n - i) as int) =~= pv.subrange(
                i + 1,
                n as int,
            ));
        }
        if is_baseline && bitreader.bits_remaining() < 32 {
            proof {
                assert(pv.subrange(i as int, n as int).len() > 0);
            }
            return Ok(());
        }
        let ghost pre_cache = cache_view(cache@);
        let resolved: (String, Decoder) = match &paths[i] {
            PathVariant::Cache(nm, d) => (nm.clone(), *d),
            PathVariant::Normal(fp) => {
                match ser.find_decoder(fp, is_baseline) {
                    Some(nd) => {
                        let key = path_to_key(fp, cls_id);
                        let entry = (nd.0.clone(), nd.1);
                        cache.insert(key, entry);
                        proof {
                            assert(cache_view(cache@) =~= pre_cache.insert(
                                spec_path_key(fp.path@, fp.last as nat, cls_id),
                                (nd.0@, nd.1),
                            ));
                        }
                        nd
                    },
                    None => {
                        return Err(BitReaderError::MalformedMessage);
                    },
                }
            },
        };
        let value = match bitreader.decode(&resolved.1) {
            Ok(v) => v,
            Err(e) => {
                return Err(e);
            },
        };
        props.insert(resolved.0, value);
        i = i + 1;
    }
    proof {
        assert(pv.subrange(n as int, n as int) =~= Seq::<PathVariantV>::empty());
    }
    Ok(())
}


/// Mathematical shadow of [`PlayerMetaData`].
pub struct PlayerV {
    pub player_entity_id: i32,
    pub steamid: u64,
    pub controller_entid: i32,
    pub name: Seq<char>,
    pub team_num: i32,
}

impl View for PlayerMetaData {
    type V = PlayerV;

    open spec fn view(&self) -> PlayerV {
        PlayerV {
            player_entity_id: self.player_entity_id,
            steamid: self.steamid,
            controller_entid: self.controller_entid,
            name: self.name@,
            team_num: self.team_num,
        }
    }
}

/// One enrichment step: the decoded value is stored generically, and a few
/// well-known property names update the player record.  A value of an
/// unexpected shape falls back to a sentinel instead of failing.
pub open spec fn spec_enrich(
    props: Map<Seq<char>, PropView>,
    player: PlayerV,
    name: Seq<char>,
    v: PropView,
) -> (Map<Seq<char>, PropView>, PlayerV) {
    let props1 = props.insert(name, v);
    if name == "m_iszPlayerName"@ {
        (
            props1,
            PlayerV {
                name: match v {
                    PropView::Str(s) => s,
                    _ => "Broken name!"@,
                },
                ..player
            },
        )
    } else if name == "m_steamID"@ {
        (
            props1,
            PlayerV {
                steamid: match v {
                    PropView::U64(x) => x,
                    _ => 99999999,
                },
                ..player
            },
        )
    } else if name == "m_hPlayerPawn"@ {
        match v {
            PropView::U32(h) => (
                props1.insert("player_entid"@, PropView::I32((h & 0x7FF) as i32)),
                PlayerV { player_entity_id: (h & 0x7FF) as i32, ..player },
            ),
            _ => (props1, PlayerV { player_entity_id: -1i32, ..player }),
        }
    } else {
        (props1, player)
    }
}

/// The player-extraction walk over an update's paths: resolve and decode as
/// in the generic walk (without touching the pattern cache), then enrich.
pub open spec fn spec_fill_player(
    paths: Seq<PathVariantV>,
    ser: Seq<crate::sendtables::SerFieldV>,
    props: Map<Seq<char>, PropView>,
    bytes: Seq<u8>,
    pos: int,
    player: PlayerV,
) -> Option<(Map<Seq<char>, PropView>, int, PlayerV)>
    decreases paths.len(),
{
    if paths.len() == 0 {
        Some((props, pos, player))
    } else {
        let resolved = match paths[0] {
            PathVariantV::Cache(name, dec) => Some((name, dec)),
            PathVariantV::Normal(path, last) => spec_find_decoder(ser, path, last, false),
        };
        match resolved {
            None => None,
            Some((name, dec)) => match spec_decode_value(dec, bytes, pos) {
                None => None,
                Some((v, p2)) => {
                    let (props2, player2) = spec_enrich(props, player, name, v);
                    spec_fill_player(
                        paths.subrange(1, paths.len() as int),
                        ser,
                        props2,
                        bytes,
                        p2,
                        player2,
                    )
                },
            },
        }
    }
}

impl Parser {
    /// Decodes a player-controller entity's update: values are stored as
    /// usual, and the well-known identity properties populate a
    /// [`PlayerMetaData`] record.  In baseline mode nothing is read and an
    /// empty record comes back.
    pub fn fill_player_data(
        paths: &Vec<PathVariant>,
        bitreader: &mut Bitreader,
        cls: &crate::class::Class,
        entity: &mut Entity,
        is_baseline: bool,
    ) -> (r: Result<PlayerMetaData, BitReaderError>)
        requires
            old(entity).props.wf(),
            old(bitreader).wf(),
            forall|j: int|
                0 <= j < paths@.len() ==> (#[trigger] paths@[j] matches PathVariant::Normal(fp)
                    ==> fp.wf()),
        ensures
            final(entity).props.wf(),
            final(entity).cls_id == old(entity).cls_id,
            final(entity).entity_id == old(entity).entity_id,
            final(bitreader).wf(),
            final(bitreader).bytes@ == old(bitreader).bytes@,
            is_baseline ==> (r matches Ok(p) && p@ == (PlayerV {
                player_entity_id: -1i32,
                steamid: 0,
                controller_entid: old(entity).entity_id,
                name: Seq::empty(),
                team_num: -1i32,
            }) && *final(entity) == *old(entity) && final(bitreader).pos == old(bitreader).pos),
            !is_baseline ==> match r {
                Ok(p) => spec_fill_player(
                    paths@.map_values(|q: PathVariant| q@),
                    cls.serializer@,
                    old(entity).props@,
                    old(bitreader).bytes@,
                    old(bitreader).pos as int,
                    PlayerV {
                        player_entity_id: -1i32,
                        steamid: 0,
                        controller_entid: old(entity).entity_id,
                        name: Seq::empty(),
                        team_num: -1i32,
                    },
                ) == Some((final(entity).props@, final(bitreader).pos as int, p@)),
                Err(_) => spec_fill_player(
                    paths@.map_values(|q: PathVariant| q@),
                    cls.serializer@,
                    old(entity).props@,
                    old(bitreader).bytes@,
                    old(bitreader).pos as int,
                    PlayerV {
                        player_entity_id: -1i32,
                        steamid: 0,
                        controller_entid: old(entity).entity_id,
                        name: Seq::empty(),
                        team_num: -1i32,
                    },
                ) is None,
            },
    {
        let mut player = PlayerMetaData {
            player_entity_id: -1,
            controller_entid: entity.entity_id,
            team_num: -1,
            name: String::new(),
            steamid: 0,
        };
        if is_baseline {
            return Ok(player);
        }
        let ghost pv = paths@.map_values(|q: PathVariant| q@);
        let n = paths.len();
        let mut i: usize = 0;
        proof {
            assert(pv.subrange(0, n as int) =~= pv);
        }
        while i < n
            invariant
                !is_baseline,
                entity.props.wf(),
                entity.cls_id == old(entity).cls_id,
                entity.entity_id == old(entity).entity_id,
                bitreader.wf(),
                bitreader.bytes@ == old(bitreader).bytes@,
                n == paths@.len(),
                pv == paths@.map_values(|q: PathVariant| q@),
                i <= n,
                forall|j: int|
                    0 <= j < paths@.len() ==> (#[trigger] paths@[j] matches PathVariant::Normal(
                        fp,
                    ) ==> fp.wf()),
                spec_fill_player(
                    pv,
                    cls.serializer@,
                    old(entity).props@,
                    old(bitreader).bytes@,
                    old(bitreader).pos as int,
                    PlayerV {
                        player_entity_id: -1i32,
                        steamid: 0,
                        controller_entid: old(entity).entity_id,
                        name: Seq::empty(),
                        team_num: -1i32,
                    },
                ) == spec_fill_player(
                    pv.subrange(i as int, n as int),
                    cls.serializer@,
                    entity.props@,
                    old(bitreader).bytes@,
                    bitreader.pos as int,
                    player@,
                ),
            decreases n - i,
        {
            proof {
                assert(pv.subrange(i as int, n as int)[0] == pv[i as int]);
                assert(pv[i as int] == paths@[i as int]@);
                assert(pv.subrange(i as int, n as int).subrange(1, (n - i) as int) =~= pv.subrange(
                    i + 1,
                    n as int,
                ));
            }
            let resolved: (String, Decoder) = match &paths[i] {
                PathVariant::Cache(nm, d) => (nm.clone(), *d),
                PathVariant::Normal(fp) => {
                    match cls.serializer.find_decoder(fp, false) {
                        Some(nd) => nd,
                        None => {
                            return Err(BitReaderError::MalformedMessage);
                        },
                    }
                },
            };
            let result = match bitreader.decode(&resolved.1) {
                Ok(v) => v,
                Err(e) => {
                    return Err(e);
                },
            };
            let var_name = resolved.0;
            let ghost nview = var_name@;
            let ghost vview = result@;
            let ghost pre_props = entity.props@;
            let ghost pre_player = player@;
            let is_name = crate::parser_settings::str_is(&var_name, "m_iszPlayerName");
            let is_steam = crate::parser_settings::str_is(&var_name, "m_steamID");
            let is_pawn = crate::parser_settings::str_is(&var_name, "m_hPlayerPawn");
            let dup = result.duplicate();
            entity.props.insert(var_name, result);
            if is_name {
                player.name = match dup {
                    crate::variants::PropData::String(nm) => nm,
                    _ => "Broken name!".to_owned(),
                };
            } else if is_steam {
                player.steamid = match dup {
                    crate::variants::PropData::U64(xuid) => xuid,
                    _ => 99999999,
                };
            } else if is_pawn {
                player.player_entity_id = match dup {
                    crate::variants::PropData::U32(handle) => {
                        proof {
                            assert((handle & 0x7FFu32) <= 0x7FF) by (bit_vector);
                        }
                        let masked: u32 = handle & 0x7FF;
                        entity.props.insert(
                            "player_entid".to_owned(),
                            crate::variants::PropData::I32(masked as i32),
                        );
                        masked as i32
                    },
                    _ => -1,
                };
            }
            proof {
                assert(entity.props@ == spec_enrich(pre_props, pre_player, nview, vview).0);
                assert(player@ == spec_enrich(pre_props, pre_player, nview, vview).1);
            }
            i = i + 1;
        }
        proof {
            assert(pv.subrange(n as int, n as int) =~= Seq::<PathVariantV>::empty());
        }
        Ok(player)
    }
}



/// One whole entity update as mathematics: decode the path list against the
/// cache, resolve the entity's class, then either the player-extraction
/// walk (for the controller class, skipped in baseline mode) or the generic
/// walk.  Yields the new entity table, pattern cache, player records and
/// stream position; `None` is any failure: unknown entity or class, or a
/// failed walk.
pub open spec fn spec_decode_update(
    entities: Map<i32, EntV>,
    players: Map<i32, PlayerV>,
    cache: Map<u64, (Seq<char>, Decoder)>,
    cls: Map<u32, crate::class::ClsV>,
    bytes: Seq<u8>,
    pos: int,
    entity_id: i32,
    is_baseline: bool,
) -> Option<(Map<i32, EntV>, Map<u64, (Seq<char>, Decoder)>, Map<i32, PlayerV>, int)> {
    if !entities.contains_key(entity_id) {
        None
    } else {
        let ent0 = entities[entity_id];
        let clsid32 = ent0.cls_id as i32;
        match spec_parse_paths(
            bytes,
            pos,
            seq![-1i32, 0i32, 0i32, 0i32, 0i32, 0i32, 0i32],
            0,
            clsid32,
            cache,
            MAX_PATHS as nat,
        ) {
            None => None,
            Some((pvs, p1)) => {
                if !cls.contains_key(ent0.cls_id) {
                    None
                } else {
                    let c = cls[ent0.cls_id];
                    let pl0 = (PlayerV {
                        player_entity_id: -1i32,
                        steamid: 0,
                        controller_entid: ent0.entity_id,
                        name: Seq::empty(),
                        team_num: -1i32,
                    });
                    if c.name == "CCSPlayerController"@ && is_baseline {
                        Some((entities, cache, players, p1))
                    } else if c.name == "CCSPlayerController"@ {
                        match spec_fill_player(pvs, c.serializer, ent0.props, bytes, p1, pl0) {
                            None => None,
                            Some((props2, p2, pl)) => Some(
                                (
                                    entities.insert(entity_id, EntV { props: props2, ..ent0 }),
                                    cache,
                                    if pl.player_entity_id != -1 {
                                        players.insert(pl.player_entity_id, pl)
                                    } else {
                                        players
                                    },
                                    p2,
                                ),
                            ),
                        }
                    } else {
                        match spec_apply_paths(
                            pvs,
                            c.serializer,
                            ent0.props,
                            cache,
                            bytes,
                            p1,
                            is_baseline,
                            clsid32,
                        ) {
                            None => None,
                            Some((props2, cache2, p2)) => Some(
                                (
                                    entities.insert(entity_id, EntV { props: props2, ..ent0 }),
                                    cache2,
                                    players,
                                    p2,
                                ),
                            ),
                        }
                    }
                }
            },
        }
    }
}

impl Parser {
    /// Applies one entity's update in the given mode: decodes its path
    /// list, resolves each path, decodes each value, and stores it; a
    /// player-controller class goes through the extraction walk instead.
    /// Failures surface the missing entity or class, or the decode error.
    pub fn decode_entity_update(
        &mut self,
        bitreader: &mut Bitreader,
        entity_id: i32,
        is_baseline: bool,
    ) -> (r: Result<(), BitReaderError>)
        requires
            old(self).wf(),
            old(bitreader).wf(),
        ensures
            final(self).wf(),
            final(bitreader).wf(),
            final(bitreader).bytes@ == old(bitreader).bytes@,
            *final(self) == (Parser {
                entities: final(self).entities,
                players: final(self).players,
                pattern_cache: final(self).pattern_cache,
                paths: final(self).paths,
                ..*old(self)
            }),
            forall|id: i32|
                final(self).entities@.contains_key(id) ==> old(self).entities@.contains_key(id),
            !old(self).entities@.contains_key(entity_id) ==> r == Err::<(), BitReaderError>(
                BitReaderError::EntityNotFound,
            ) && final(self).entities == old(self).entities && final(self).players == old(self).players && final(self).pattern_cache == old(self).pattern_cache && final(self).paths
                == old(self).paths && final(bitreader).pos == old(bitreader).pos,
            old(self).entities@.contains_key(entity_id) ==> ({
                let ent0 = old(self).entities@[entity_id];
                let clsid32 = ent0.cls_id as i32;
                match spec_parse_paths(
                    old(bitreader).bytes@,
                    old(bitreader).pos as int,
                    seq![-1i32, 0i32, 0i32, 0i32, 0i32, 0i32, 0i32],
                    0,
                    clsid32,
                    cache_view(old(self).pattern_cache@),
                    MAX_PATHS as nat,
                ) {
                    None => r is Err,
                    Some((pvs, p1)) => {
                        if !old(self).cls_by_id@.contains_key(ent0.cls_id) {
                            &&& r == Err::<(), BitReaderError>(BitReaderError::ClassNotFound)
                            &&& final(self).entities@ == old(self).entities@
                            &&& final(self).players == old(self).players
                            &&& final(self).pattern_cache == old(self).pattern_cache
                            &&& final(bitreader).pos == p1
                        } else {
                            let cname = old(self).cls_by_id@[ent0.cls_id]@.name;
                            let serv = old(self).cls_by_id@[ent0.cls_id]@.serializer;
                            let pl0 = (PlayerV {
                                player_entity_id: -1i32,
                                steamid: 0,
                                controller_entid: ent0.entity_id,
                                name: Seq::empty(),
                                team_num: -1i32,
                            });
                            if cname == "CCSPlayerController"@ && is_baseline {
                                &&& r is Ok
                                &&& final(self).entities@.contains_key(entity_id)
                                &&& final(self).entities@[entity_id].props@ == ent0.props@
                                &&& final(self).entities@[entity_id].cls_id == ent0.cls_id
                                &&& final(self).entities@[entity_id].entity_id == ent0.entity_id
                                &&& final(self).entities@.remove(entity_id) == old(self).entities@.remove(entity_id)
                                &&& final(self).pattern_cache == old(self).pattern_cache
                                &&& final(self).players == old(self).players
                                &&& final(bitreader).pos == p1
                            } else if cname == "CCSPlayerController"@ {
                                match spec_fill_player(
                                    pvs,
                                    serv,
                                    ent0.props@,
                                    old(bitreader).bytes@,
                                    p1,
                                    pl0,
                                ) {
                                    None => r is Err,
                                    Some((props2, p2, pl)) => {
                                        &&& r is Ok
                                        &&& final(self).entities@.contains_key(entity_id)
                                        &&& final(self).entities@[entity_id].props@ == props2
                                        &&& final(self).entities@[entity_id].cls_id == ent0.cls_id
                                        &&& final(self).entities@[entity_id].entity_id
                                            == ent0.entity_id
                                        &&& final(self).entities@.remove(entity_id) == old(self).entities@.remove(entity_id)
                                        &&& final(self).pattern_cache == old(self).pattern_cache
                                        &&& final(bitreader).pos == p2
                                        &&& (pl.player_entity_id != -1 ==> final(self).players@
                                            .contains_key(pl.player_entity_id) && final(self).players@[pl.player_entity_id]@ == pl && final(self).players@.remove(pl.player_entity_id) == old(self).players@.remove(pl.player_entity_id))
                                        &&& (pl.player_entity_id == -1 ==> final(self).players
                                            == old(self).players)
                                    },
                                }
                            } else {
                                match spec_apply_paths(
                                    pvs,
                                    serv,
                                    ent0.props@,
                                    cache_view(old(self).pattern_cache@),
                                    old(bitreader).bytes@,
                                    p1,
                                    is_baseline,
                                    clsid32,
                                ) {
                                    None => r is Err,
                                    Some((props2, cache2, p2)) => {
                                        &&& r is Ok
                                        &&& final(self).entities@.contains_key(entity_id)
                                        &&& final(self).entities@[entity_id].props@ == props2
                                        &&& final(self).entities@[entity_id].cls_id == ent0.cls_id
                                        &&& final(self).entities@[entity_id].entity_id
                                            == ent0.entity_id
                                        &&& final(self).entities@.remove(entity_id) == old(self).entities@.remove(entity_id)
                                        &&& cache_view(final(self).pattern_cache@) == cache2
                                        &&& final(self).players == old(self).players
                                        &&& final(bitreader).pos == p2
                                    },
                                }
                            }
                        }
                    },
                }
            }),
            match r {
                Ok(_) => spec_decode_update(
                    ent_view(old(self).entities@),
                    players_view(old(self).players@),
                    cache_view(old(self).pattern_cache@),
                    cls_view(old(self).cls_by_id@),
                    old(bitreader).bytes@,
                    old(bitreader).pos as int,
                    entity_id,
                    is_baseline,
                ) == Some(
                    (
                        ent_view(final(self).entities@),
                        cache_view(final(self).pattern_cache@),
                        players_view(final(self).players@),
                        final(bitreader).pos as int,
                    ),
                ),
                Err(_) => spec_decode_update(
                    ent_view(old(self).entities@),
                    players_view(old(self).players@),
                    cache_view(old(self).pattern_cache@),
                    cls_view(old(self).cls_by_id@),
                    old(bitreader).bytes@,
                    old(bitreader).pos as int,
                    entity_id,
                    is_baseline,
                ) is None,
            },
    {
        let cls_id_u: u32 = match self.entities.get(&entity_id) {
            Some(e) => e.cls_id,
            None => {
                return Err(BitReaderError::EntityNotFound);
            },
        };
        let clsid32: i32 = #[verifier::truncate] (cls_id_u as i32);
        match self.parse_paths(bitreader, clsid32) {
            Ok(_) => {},
            Err(e) => {
                return Err(e);
            },
        }
        let mut ent = match self.entities.remove(&entity_id) {
            Some(e) => e,
            None => {
                proof {
                    assert(false);
                }
                return Err(BitReaderError::EntityNotFound);
            },
        };
        match self.cls_by_id.get(&cls_id_u) {
            Some(cls) => {
                let is_controller = crate::parser_settings::str_is(
                    &cls.name,
                    "CCSPlayerController",
                );
                if is_controller {
                    let rr = Parser::fill_player_data(
                        &self.paths,
                        bitreader,
                        cls,
                        &mut ent,
                        is_baseline,
                    );
                    self.entities.insert(entity_id, ent);
                    proof {
                        assert(self.entities@.remove(entity_id) =~= old(self).entities@.remove(
                            entity_id,
                        ));
                    }
                    proof {
                        assert(ent_view(self.entities@) =~= ent_view(
                            old(self).entities@,
                        ).insert(entity_id, self.entities@[entity_id]@));
                        assert(ent_view(old(self).entities@).insert(
                            entity_id,
                            old(self).entities@[entity_id]@,
                        ) =~= ent_view(old(self).entities@));
                    }
                    match rr {
                        Ok(player_md) => {
                            if player_md.player_entity_id != -1 {
                                let ghost pre_players = self.players@;
                                let pid = player_md.player_entity_id;
                                let ghost plv = player_md@;
                                self.players.insert(pid, player_md);
                                proof {
                                    assert(self.players@.remove(pid) =~= pre_players.remove(pid));
                                    assert(players_view(self.players@) =~= players_view(
                                        pre_players,
                                    ).insert(pid, plv));
                                }
                            }
                            Ok(())
                        },
                        Err(e) => Err(e),
                    }
                } else {
                    let rr = apply_update(
                        &self.paths,
                        &cls.serializer,
                        &mut ent.props,
                        &mut self.pattern_cache,
                        bitreader,
                        is_baseline,
                        clsid32,
                    );
                    self.entities.insert(entity_id, ent);
                    proof {
                        assert(self.entities@.remove(entity_id) =~= old(self).entities@.remove(
                            entity_id,
                        ));
                        assert(ent_view(self.entities@) =~= ent_view(
                            old(self).entities@,
                        ).insert(entity_id, self.entities@[entity_id]@));
                    }
                    match rr {
                        Ok(_) => Ok(()),
                        Err(e) => Err(e),
                    }
                }
            },
            None => {
                self.entities.insert(entity_id, ent);
                proof {
                    assert(self.entities@ =~= old(self).entities@);
                }
                Err(BitReaderError::ClassNotFound)
            },
        }
    }
}


/// The next absolute entity id: ids travel as gaps, so the cursor advances
/// by one more than the transmitted delta and is strictly increasing within
/// a packet.
pub fn next_entity_id(cursor: i32, delta: u32) -> (r: Result<i32, BitReaderError>)
    requires
        cursor >= -1,
    ensures
        match r {
            Ok(v) => cursor + 1 + delta <= i32::MAX && v == cursor + 1 + delta,
            Err(e) => e == BitReaderError::MalformedMessage && cursor + 1 + delta > i32::MAX,
        },
{
    let sum: i64 = cursor as i64 + 1 + delta as i64;
    if sum > i32::MAX as i64 {
        return Err(BitReaderError::MalformedMessage);
    }
    Ok(sum as i32)
}


/// Mathematical shadow of the mutable session state a packet touches.
pub struct SessionV {
    pub entities: Map<i32, EntV>,
    pub projectiles: Set<i32>,
    pub players: Map<i32, PlayerV>,
    pub rules_entity_id: Option<i32>,
    pub cache: Map<u64, (Seq<char>, Decoder)>,
}

/// The session's packet-mutable state as mathematics.
pub open spec fn session_view(p: Parser) -> SessionV {
    SessionV {
        entities: ent_view(p.entities@),
        projectiles: p.projectiles@,
        players: players_view(p.players@),
        rules_entity_id: p.rules_entity_id,
        cache: cache_view(p.pattern_cache@),
    }
}

/// A whole packet-entities message as mathematics: `n` updates applied in
/// order from `pos`, the entity-id cursor starting at `cursor` and advancing
/// by one more than each transmitted gap.  A delete drops the id from the
/// table and the projectile set and consumes one reserved bit; a create
/// reads the class id at the session's fixed width, discards a 17-bit
/// serial and a variable-length artifact, inserts the entity empty, seeds
/// it from its class baseline if one is registered, records the rules or
/// projectile id its class name calls for, and applies the live delta; any
/// other update applies the live delta to the existing entity.  `None` is
/// any failure, and the whole message fails with it.
pub open spec fn spec_apply_packet(
    st: SessionV,
    cls: Map<u32, crate::class::ClsV>,
    baselines: Map<u32, Seq<u8>>,
    cls_bits: Option<u32>,
    bytes: Seq<u8>,
    pos: int,
    cursor: int,
    n: nat,
) -> Option<(SessionV, int)>
    decreases n, 1nat,
{
    if n == 0 {
        Some((st, pos))
    } else {
        let nbits = bytes.len() * 8;
        if pos < 0 || pos + spec_ubitvar_len(bytes, pos) > nbits {
            None
        } else {
            let delta = spec_ubitvar_value(bytes, pos);
            let p1 = pos + spec_ubitvar_len(bytes, pos);
            if cursor + 1 + delta > i32::MAX {
                None
            } else {
                let id = (cursor + 1 + delta) as i32;
                if p1 + 1 > nbits {
                    None
                } else {
                    let del = spec_bit(bytes, p1) == 1;
                    let p2 = p1 + 1;
                    if del {
                        if p2 + 1 > nbits {
                            None
                        } else {
                            spec_apply_packet(
                                SessionV {
                                    entities: st.entities.remove(id),
                                    projectiles: st.projectiles.remove(id),
                                    ..st
                                },
                                cls,
                                baselines,
                                cls_bits,
                                bytes,
                                p2 + 1,
                                id as int,
                                (n - 1) as nat,
                            )
                        }
                    } else {
                        if p2 + 1 > nbits {
                            None
                        } else {
                            let is_new = spec_bit(bytes, p2) == 1;
                            let p3 = p2 + 1;
                            if is_new {
                                spec_apply_create(
                                    st,
                                    cls,
                                    baselines,
                                    cls_bits,
                                    bytes,
                                    p3,
                                    id,
                                    n,
                                )
                            } else {
                                match spec_decode_update(
                                    st.entities,
                                    st.players,
                                    st.cache,
                                    cls,
                                    bytes,
                                    p3,
                                    id,
                                    false,
                                ) {
                                    None => None,
                                    Some((e3, c3, pl3, p7)) => spec_apply_packet(
                                        SessionV { entities: e3, cache: c3, players: pl3, ..st },
                                        cls,
                                        baselines,
                                        cls_bits,
                                        bytes,
                                        p7,
                                        id as int,
                                        (n - 1) as nat,
                                    ),
                                }
                            }
                        }
                    }
                }
            }
        }
    }
}

/// The create step of [`spec_apply_packet`], split out for readability.
pub open spec fn spec_apply_create(
    st: SessionV,
    cls: Map<u32, crate::class::ClsV>,
    baselines: Map<u32, Seq<u8>>,
    cls_bits: Option<u32>,
    bytes: Seq<u8>,
    p3: int,
    id: i32,
    n: nat,
) -> Option<(SessionV, int)>
    decreases n, 0nat when n >= 1
{
    let nbits = bytes.len() * 8;
    match cls_bits {
        None => None,
        Some(bits) => {
            if p3 + bits > nbits {
                None
            } else {
                let cls_id = spec_bits(bytes, p3, bits as nat) as u32;
                let p4 = p3 + bits;
                if p4 + 17 > nbits {
                    None
                } else {
                    let p5 = p4 + 17;
                    let p6 = match spec_varint32(bytes, p5) {
                        Some((_, e)) => e,
                        None => p5,
                    };
                    let st1 = SessionV {
                        entities: st.entities.insert(
                            id,
                            EntV { cls_id, entity_id: id, props: Map::empty() },
                        ),
                        ..st
                    };
                    let seeded = if baselines.contains_key(cls_id) {
                        match spec_decode_update(
                            st1.entities,
                            st1.players,
                            st1.cache,
                            cls,
                            baselines[cls_id],
                            0,
                            id,
                            true,
                        ) {
                            None => None,
                            Some((e2, c2, pl2, _)) => Some(
                                SessionV { entities: e2, cache: c2, players: pl2, ..st1 },
                            ),
                        }
                    } else {
                        Some(st1)
                    };
                    match seeded {
                        None => None,
                        Some(st2) => {
                            if !cls.contains_key(cls_id) {
                                None
                            } else {
                                let cname = cls[cls_id].name;
                                let st3 = SessionV {
                                    rules_entity_id: if cname == "CCSGameRulesProxy"@ {
                                        Some(id)
                                    } else {
                                        st2.rules_entity_id
                                    },
                                    projectiles: if crate::parser_settings::spec_str_contains(
                                        cname,
                                        "Projectile"@,
                                    ) {
                                        st2.projectiles.insert(id)
                                    } else {
                                        st2.projectiles
                                    },
                                    ..st2
                                };
                                match spec_decode_update(
                                    st3.entities,
                                    st3.players,
                                    st3.cache,
                                    cls,
                                    bytes,
                                    p6,
                                    id,
                                    false,
                                ) {
                                    None => None,
                                    Some((e3, c3, pl3, p7)) => spec_apply_packet(
                                        SessionV { entities: e3, cache: c3, players: pl3, ..st3 },
                                        cls,
                                        baselines,
                                        cls_bits,
                                        bytes,
                                        p7,
                                        id as int,
                                        (n - 1) as nat,
                                    ),
                                }
                            }
                        },
                    }
                }
            }
        },
    }
}

impl Parser {
    /// Applies one packet-entities message: exactly `n_updates` delta
    /// entries, each naming its entity by a gap from the running cursor and
    /// deleting, creating (with baseline seeding) or updating it.  The whole
    /// effect on the session is [`spec_apply_packet`] of the payload bits.
    /// Any failure aborts the message; the registries survive unchanged, and
    /// a non-positive count changes nothing.
    pub fn _parse_packet_ents(&mut self, n_updates: i32, data: Vec<u8>) -> (r: Result<
        (),
        BitReaderError,
    >)
        requires
            old(self).wf(),
            data@.len() <= crate::read_bits::MAX_STREAM_BYTES,
        ensures
            final(self).wf(),
            *final(self) == (Parser {
                entities: final(self).entities,
                players: final(self).players,
                projectiles: final(self).projectiles,
                rules_entity_id: final(self).rules_entity_id,
                pattern_cache: final(self).pattern_cache,
                paths: final(self).paths,
                ..*old(self)
            }),
            n_updates <= 0 ==> r is Ok && final(self).entities == old(self).entities && final(self).players == old(self).players && final(self).projectiles == old(self).projectiles
                && final(self).rules_entity_id == old(self).rules_entity_id && final(self).pattern_cache == old(self).pattern_cache,
            forall|id: i32|
                final(self).entities@.contains_key(id) && !old(self).entities@.contains_key(id)
                    ==> id >= 0,
            ({
                let n_nat: nat = if n_updates >= 0 { n_updates as nat } else { 0nat };
                match r {
                    Ok(_) => spec_apply_packet(
                        session_view(*old(self)),
                        cls_view(old(self).cls_by_id@),
                        bl_view(old(self).baselines@),
                        old(self).cls_bits,
                        data@,
                        0,
                        -1,
                        n_nat,
                    ) matches Some(st) && st.0 == session_view(*final(self)),
                    Err(_) => spec_apply_packet(
                        session_view(*old(self)),
                        cls_view(old(self).cls_by_id@),
                        bl_view(old(self).baselines@),
                        old(self).cls_bits,
                        data@,
                        0,
                        -1,
                        n_nat,
                    ) is None,
                }
            }),
    {
        let mut bitreader = Bitreader::new(data);
        let mut entity_id: i32 = -1;
        let mut upd: i32 = 0;
        while upd < n_updates
            invariant
                self.wf(),
                bitreader.wf(),
                bitreader.bytes@ == data@,
                entity_id >= -1,
                0 <= upd,
                upd <= (if n_updates >= 0 { n_updates as nat } else { 0nat }),
                forall|id: i32|
                    self.entities@.contains_key(id) ==> old(self).entities@.contains_key(id) || id
                        >= 0,
                upd <= n_updates || n_updates <= 0,
                n_updates <= 0 ==> (self.entities == old(self).entities && self.players == old(self).players && self.projectiles == old(self).projectiles && self.rules_entity_id
                    == old(self).rules_entity_id && self.pattern_cache == old(self).pattern_cache),
                *self == (Parser {
                    entities: self.entities,
                    players: self.players,
                    projectiles: self.projectiles,
                    rules_entity_id: self.rules_entity_id,
                    pattern_cache: self.pattern_cache,
                    paths: self.paths,
                    ..*old(self)
                }),
                spec_apply_packet(
                    session_view(*old(self)),
                    cls_view(old(self).cls_by_id@),
                    bl_view(old(self).baselines@),
                    old(self).cls_bits,
                    data@,
                    0,
                    -1,
                    (if n_updates >= 0 { n_updates as nat } else { 0nat }),
                ) == spec_apply_packet(
                    session_view(*self),
                    cls_view(old(self).cls_by_id@),
                    bl_view(old(self).baselines@),
                    old(self).cls_bits,
                    data@,
                    bitreader.pos as int,
                    entity_id as int,
                    ((if n_updates >= 0 { n_updates as nat } else { 0nat }) - upd) as nat,
                ),
            decreases n_updates - upd,
        {
            let ghost clsv = cls_view(old(self).cls_by_id@);
            let ghost blv = bl_view(old(self).baselines@);
            let ghost bits0 = old(self).cls_bits;
            let ghost bytesg = bitreader.bytes@;
            let ghost pre_st = session_view(*self);
            let ghost pre_pos = bitreader.pos as int;
            let ghost pre_cur = entity_id as int;
            let ghost k = ((if n_updates >= 0 { n_updates as nat } else { 0nat }) - upd) as nat;
            proof {
                assert(k >= 1);
            }
            let delta = match bitreader.read_u_bit_var() {
                Ok(d) => d,
                Err(e) => {
                    proof {
                        assert(spec_apply_packet(pre_st, clsv, blv, bits0, bytesg, pre_pos, pre_cur, k) is None);
                    }
                    return Err(e);
                },
            };
            let ghost p1 = bitreader.pos as int;
            entity_id = match next_entity_id(entity_id, delta) {
                Ok(v) => v,
                Err(e) => {
                    proof {
                        assert(spec_apply_packet(pre_st, clsv, blv, bits0, bytesg, pre_pos, pre_cur, k) is None);
                    }
                    return Err(e);
                },
            };
            let deleted = match bitreader.read_boolie() {
                Ok(b) => b,
                Err(e) => {
                    proof {
                        assert(spec_apply_packet(pre_st, clsv, blv, bits0, bytesg, pre_pos, pre_cur, k) is None);
                    }
                    return Err(e);
                },
            };
            let ghost p2 = bitreader.pos as int;
            if deleted {
                self.projectiles.remove(&entity_id);
                let ghost pre_ents = self.entities@;
                self.entities.remove(&entity_id);
                proof {
                    assert(ent_view(self.entities@) =~= pre_st.entities.remove(entity_id));
                    assert(session_view(*self) == (SessionV {
                        entities: pre_st.entities.remove(entity_id),
                        projectiles: pre_st.projectiles.remove(entity_id),
                        ..pre_st
                    }));
                }
                match bitreader.read_boolie() {
                    Ok(_) => {},
                    Err(e) => {
                        proof {
                            assert(spec_apply_packet(pre_st, clsv, blv, bits0, bytesg, pre_pos, pre_cur, k) is None);
                        }
                        return Err(e);
                    },
                };
                proof {
                    assert(spec_apply_packet(pre_st, clsv, blv, bits0, bytesg, pre_pos, pre_cur, k)
                        == spec_apply_packet(
                        session_view(*self),
                        clsv,
                        blv,
                        bits0,
                        bytesg,
                        bitreader.pos as int,
                        entity_id as int,
                        (k - 1) as nat,
                    ));
                }
                upd = upd + 1;
                continue;
            }
            let is_new = match bitreader.read_boolie() {
                Ok(b) => b,
                Err(e) => {
                    proof {
                        assert(spec_apply_packet(pre_st, clsv, blv, bits0, bytesg, pre_pos, pre_cur, k) is None);
                    }
                    return Err(e);
                },
            };
            let ghost p3 = bitreader.pos as int;
            if is_new {
                let bits = match self.cls_bits {
                    Some(b) => b,
                    None => {
                        proof {
                            assert(spec_apply_packet(pre_st, clsv, blv, bits0, bytesg, pre_pos, pre_cur, k) is None);
                        }
                        return Err(BitReaderError::ClassNotFound);
                    },
                };
                let cls_id = match bitreader.read_nbits(bits) {
                    Ok(v) => v,
                    Err(e) => {
                        proof {
                            assert(spec_apply_packet(pre_st, clsv, blv, bits0, bytesg, pre_pos, pre_cur, k) is None);
                        }
                        return Err(e);
                    },
                };
                proof {
                    crate::read_bits::lemma_spec_bits_bound(bytesg, p3, bits as nat);
                    assert(bits <= 32 ==> (1u64 << (bits as u64)) <= 0x1_0000_0000u64)
                        by (bit_vector);
                }
                let _serial = match bitreader.read_nbits(17) {
                    Ok(v) => v,
                    Err(e) => {
                        proof {
                            assert(spec_apply_packet(pre_st, clsv, blv, bits0, bytesg, pre_pos, pre_cur, k) is None);
                            assert(spec_apply_create(pre_st, clsv, blv, bits0, bytesg, p3, entity_id, k) is None);
                        }
                        return Err(e);
                    },
                };
                let ghost p5 = bitreader.pos as int;
                let _unknown = bitreader.read_varint();
                let ghost p6 = bitreader.pos as int;
                proof {
                    assert(p6 == (match spec_varint32(bytesg, p5) {
                        Some((_, e)) => e,
                        None => p5,
                    }));
                }
                let entity = Entity { entity_id, cls_id, props: PropMap::new() };
                self.entities.insert(entity_id, entity);
                let ghost st1 = (SessionV {
                    entities: pre_st.entities.insert(
                        entity_id,
                        EntV { cls_id, entity_id, props: Map::empty() },
                    ),
                    ..pre_st
                });
                proof {
                    assert(ent_view(self.entities@) =~= st1.entities);
                    assert(session_view(*self) == st1);
                }
                let bl: Option<Vec<u8>> = match self.baselines.get(&cls_id) {
                    Some(b) => Some(crate::parser_settings::clone_bytes(b)),
                    None => None,
                };
                match bl {
                    Some(b) => {
                        let mut br2 = Bitreader::new(b);
                        match self.decode_entity_update(&mut br2, entity_id, true) {
                            Ok(_) => {},
                            Err(e) => {
                                proof {
                                    assert(spec_apply_create(pre_st, clsv, blv, bits0, bytesg, p3, entity_id, k) is None);
                                    assert(spec_apply_packet(pre_st, clsv, blv, bits0, bytesg, pre_pos, pre_cur, k) is None);
                                }
                                return Err(e);
                            },
                        }
                    },
                    None => {},
                }
                let ghost st2 = session_view(*self);
                proof {
                    assert(st2.projectiles == st1.projectiles && st2.rules_entity_id
                        == st1.rules_entity_id);
                    assert((if blv.contains_key(cls_id) {
                        match spec_decode_update(
                            st1.entities,
                            st1.players,
                            st1.cache,
                            clsv,
                            blv[cls_id],
                            0,
                            entity_id,
                            true,
                        ) {
                            None => None,
                            Some((e2, c2, pl2, rest)) => Some(
                                SessionV { entities: e2, cache: c2, players: pl2, ..st1 },
                            ),
                        }
                    } else {
                        Some(st1)
                    }) == Some(st2));
                }
                let flags: (bool, bool) = match self.cls_by_id.get(&cls_id) {
                    Some(cls) => (
                        crate::parser_settings::str_is(&cls.name, "CCSGameRulesProxy"),
                        crate::parser_settings::str_contains(cls.name.as_str(), "Projectile"),
                    ),
                    None => {
                        proof {
                            assert(spec_apply_create(pre_st, clsv, blv, bits0, bytesg, p3, entity_id, k) is None);
                            assert(spec_apply_packet(pre_st, clsv, blv, bits0, bytesg, pre_pos, pre_cur, k) is None);
                        }
                        return Err(BitReaderError::ClassNotFound);
                    },
                };
                if flags.0 {
                    self.rules_entity_id = Some(entity_id);
                }
                if flags.1 {
                    self.projectiles.insert(entity_id);
                }
                let ghost st3 = session_view(*self);
                proof {
                    assert(st3 == (SessionV {
                        rules_entity_id: if clsv[cls_id].name == "CCSGameRulesProxy"@ {
                            Some(entity_id)
                        } else {
                            st2.rules_entity_id
                        },
                        projectiles: if crate::parser_settings::spec_str_contains(
                            clsv[cls_id].name,
                            "Projectile"@,
                        ) {
                            st2.projectiles.insert(entity_id)
                        } else {
                            st2.projectiles
                        },
                        ..st2
                    }));
                }
                match self.decode_entity_update(&mut bitreader, entity_id, false) {
                    Ok(_) => {},
                    Err(e) => {
                        proof {
                            assert(spec_apply_create(pre_st, clsv, blv, bits0, bytesg, p3, entity_id, k) is None);
                            assert(spec_apply_packet(pre_st, clsv, blv, bits0, bytesg, pre_pos, pre_cur, k) is None);
                        }
                        return Err(e);
                    },
                }
                proof {
                    assert(spec_apply_create(pre_st, clsv, blv, bits0, bytesg, p3, entity_id, k)
                        == spec_apply_packet(
                        session_view(*self),
                        clsv,
                        blv,
                        bits0,
                        bytesg,
                        bitreader.pos as int,
                        entity_id as int,
                        (k - 1) as nat,
                    ));
                    assert(spec_apply_packet(pre_st, clsv, blv, bits0, bytesg, pre_pos, pre_cur, k)
                        == spec_apply_packet(
                        session_view(*self),
                        clsv,
                        blv,
                        bits0,
                        bytesg,
                        bitreader.pos as int,
                        entity_id as int,
                        (k - 1) as nat,
                    ));
                }
            } else {
                match self.decode_entity_update(&mut bitreader, entity_id, false) {
                    Ok(_) => {},
                    Err(e) => {
                        proof {
                            assert(spec_apply_packet(pre_st, clsv, blv, bits0, bytesg, pre_pos, pre_cur, k) is None);
                        }
                        return Err(e);
                    },
                }
                proof {
                    assert(spec_apply_packet(pre_st, clsv, blv, bits0, bytesg, pre_pos, pre_cur, k)
                        == spec_apply_packet(
                        session_view(*self),
                        clsv,
                        blv,
                        bits0,
                        bytesg,
                        bitreader.pos as int,
                        entity_id as int,
                        (k - 1) as nat,
                    ));
                }
            }
            upd = upd + 1;
        }
        proof {
            assert(spec_apply_packet(
                session_view(*self),
                cls_view(old(self).cls_by_id@),
                bl_view(old(self).baselines@),
                old(self).cls_bits,
                data@,
                bitreader.pos as int,
                entity_id as int,
                0,
            ) == Some((session_view(*self), bitreader.pos as int)));
        }
        Ok(())
    }

    /// Entry point for one packet-entities message, already unframed into
    /// its update count and delta payload.  Does nothing when entity
    /// parsing is off; a missing payload is a malformed message.
    pub fn parse_packet_ents(&mut self, updated_entries: i32, entity_data: Option<Vec<u8>>) -> (r:
        Result<(), BitReaderError>)
        requires
            old(self).wf(),
            (entity_data matches Some(d) ==> d@.len() <= crate::read_bits::MAX_STREAM_BYTES),
        ensures
            final(self).wf(),
            *final(self) == (Parser {
                entities: final(self).entities,
                players: final(self).players,
                projectiles: final(self).projectiles,
                rules_entity_id: final(self).rules_entity_id,
                pattern_cache: final(self).pattern_cache,
                paths: final(self).paths,
                ..*old(self)
            }),
            !old(self).parse_entities ==> r is Ok && *final(self) == *old(self),
            old(self).parse_entities && entity_data is None ==> r == Err::<(), BitReaderError>(
                BitReaderError::MalformedMessage,
            ) && *final(self) == *old(self),
            forall|id: i32|
                final(self).entities@.contains_key(id) && !old(self).entities@.contains_key(id)
                    ==> id >= 0,
            old(self).parse_entities ==> (entity_data matches Some(d) ==> ({
                let n_nat: nat = if updated_entries >= 0 { updated_entries as nat } else { 0nat };
                match r {
                    Ok(_) => spec_apply_packet(
                        session_view(*old(self)),
                        cls_view(old(self).cls_by_id@),
                        bl_view(old(self).baselines@),
                        old(self).cls_bits,
                        d@,
                        0,
                        -1,
                        n_nat,
                    ) matches Some(st) && st.0 == session_view(*final(self)),
                    Err(_) => spec_apply_packet(
                        session_view(*old(self)),
                        cls_view(old(self).cls_by_id@),
                        bl_view(old(self).baselines@),
                        old(self).cls_bits,
                        d@,
                        0,
                        -1,
                        n_nat,
                    ) is None,
                }
            })),
            old(self).parse_entities && updated_entries <= 0 && entity_data is Some ==> r is Ok
                && final(self).entities == old(self).entities && final(self).players == old(self).players && final(self).projectiles == old(self).projectiles && final(self).rules_entity_id == old(self).rules_entity_id && final(self).pattern_cache == old(self).pattern_cache,
    {
        if !self.parse_entities {
            return Ok(());
        }
        match entity_data {
            Some(data) => self._parse_packet_ents(updated_entries, data),
            None => Err(BitReaderError::MalformedMessage),
        }
    }
}

} // verus!
