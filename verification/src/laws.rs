//! Laws of the decoder, stated and proved over the same spec functions
//! that the executable functions' contracts use.

use vstd::prelude::*;

verus! {

use crate::entities::Entity;
use crate::entities::PathVariantV;
use crate::entities::spec_apply_paths;
use crate::entities::spec_parse_paths;
use crate::entities::spec_path_key;
use crate::entities_utils::SYMBOL_FINISH;
use crate::entities_utils::spec_read_symbol;
use crate::sendtables::SerFieldV;
use crate::sendtables::spec_find_decoder;
use crate::variants::Decoder;
use crate::variants::PropView;
use crate::variants::spec_decode_value;

/// The entity-id cursor after update `i`: it starts at −1 and advances by
/// one more than each transmitted delta.
pub open spec fn spec_cursor(deltas: Seq<int>, i: int) -> int
    decreases i + 1 when i >= -1
{
    if i < 0 {
        -1
    } else {
        spec_cursor(deltas, i - 1) + 1 + deltas[i]
    }
}

/// The sum of the deltas through index `i`.
pub open spec fn spec_delta_sum(deltas: Seq<int>, i: int) -> int
    decreases i + 1 when i >= -1
{
    if i < 0 {
        0
    } else {
        spec_delta_sum(deltas, i - 1) + deltas[i]
    }
}

/// For non-negative deltas `d_0 … d_{n-1}`, the reconstructed absolute
/// entity ids are strictly increasing and the id of update `i` equals
/// `d_0 + … + d_i + i`.  [`crate::entities::spec_apply_packet`] advances its cursor by
/// exactly the recurrence of [`spec_cursor`], so these are the ids a packet
/// uses.
pub proof fn lemma_entity_id_reconstruction(deltas: Seq<int>, i: int)
    requires
        0 <= i < deltas.len(),
        forall|j: int| 0 <= j < deltas.len() ==> #[trigger] deltas[j] >= 0,
    ensures
        spec_cursor(deltas, i) == spec_delta_sum(deltas, i) + i,
        i > 0 ==> spec_cursor(deltas, i) > spec_cursor(deltas, i - 1),
    decreases i,
{
    if i == 0 {
        assert(spec_cursor(deltas, -1) == -1);
        assert(spec_delta_sum(deltas, -1) == 0);
    } else {
        lemma_entity_id_reconstruction(deltas, i - 1);
    }
}

/// Deleting an entity removes it from the live table and from the tracked
/// projectile set, and a subsequent property lookup on that id finds
/// nothing, whatever the property.  The delete step of
/// [`crate::entities::spec_apply_packet`] performs exactly these two removals.
pub proof fn lemma_delete_removes(
    entities: Map<i32, Entity>,
    projectiles: Set<i32>,
    entity_id: i32,
    prop: Seq<char>,
)
    ensures
        !entities.remove(entity_id).contains_key(entity_id),
        !projectiles.remove(entity_id).contains(entity_id),
        !(entities.remove(entity_id).contains_key(entity_id) && entities.remove(
            entity_id,
        )[entity_id].props@.contains_key(prop)),
{
}

/// Applying an update never loses a property: every name present before is
/// still present after, whatever the mode.
pub proof fn lemma_apply_paths_preserves_keys(
    paths: Seq<PathVariantV>,
    ser: Seq<SerFieldV>,
    props: Map<Seq<char>, PropView>,
    cache: Map<u64, (Seq<char>, Decoder)>,
    bytes: Seq<u8>,
    pos: int,
    is_baseline: bool,
    cls_id: i32,
    k: Seq<char>,
)
    requires
        spec_apply_paths(paths, ser, props, cache, bytes, pos, is_baseline, cls_id) is Some,
        props.contains_key(k),
    ensures
        spec_apply_paths(
            paths,
            ser,
            props,
            cache,
            bytes,
            pos,
            is_baseline,
            cls_id,
        ).unwrap().0.contains_key(k),
    decreases paths.len(),
{
    if paths.len() == 0 {
    } else if is_baseline && bytes.len() * 8 - pos < 32 {
    } else {
        match paths[0] {
            PathVariantV::Cache(name, dec) => {
                let (v, p2) = spec_decode_value(dec, bytes, pos).unwrap();
                lemma_apply_paths_preserves_keys(
                    paths.subrange(1, paths.len() as int),
                    ser,
                    props.insert(name, v),
                    cache,
                    bytes,
                    p2,
                    is_baseline,
                    cls_id,
                    k,
                );
            },
            PathVariantV::Normal(path, last) => {
                let (name, dec) = spec_find_decoder(ser, path, last, is_baseline).unwrap();
                let (v, p2) = spec_decode_value(dec, bytes, pos).unwrap();
                lemma_apply_paths_preserves_keys(
                    paths.subrange(1, paths.len() as int),
                    ser,
                    props.insert(name, v),
                    cache.insert(spec_path_key(path, last, cls_id), (name, dec)),
                    bytes,
                    p2,
                    is_baseline,
                    cls_id,
                    k,
                );
            },
        }
    }
}

/// An empty update leaves the property table, the cache and the stream
/// exactly as they were: applying an empty live delta on top of a baseline
/// freshly seeded by the create step of [`crate::entities::spec_apply_packet`] keeps every
/// baseline value intact.
pub proof fn lemma_apply_empty_delta(
    ser: Seq<SerFieldV>,
    props: Map<Seq<char>, PropView>,
    cache: Map<u64, (Seq<char>, Decoder)>,
    bytes: Seq<u8>,
    pos: int,
    is_baseline: bool,
    cls_id: i32,
)
    ensures
        spec_apply_paths(Seq::empty(), ser, props, cache, bytes, pos, is_baseline, cls_id)
            == Some((props, cache, pos)),
{
}

/// The resolved name of one emitted path.
pub open spec fn spec_path_name(pv: PathVariantV, ser: Seq<SerFieldV>) -> Option<Seq<char>> {
    match pv {
        PathVariantV::Cache(name, _) => Some(name),
        PathVariantV::Normal(path, last) => match spec_find_decoder(ser, path, last, false) {
            Some(nd) => Some(nd.0),
            None => None,
        },
    }
}

/// A successful update in normal mode stores a value for every path it
/// carries: afterwards the table holds every resolved property name.  (In
/// baseline mode the padding stop may leave the trailing names unwritten:
/// the guard exists exactly for blobs whose last path ends within 32 bits
/// of the end.)
pub proof fn lemma_apply_paths_covers_names(
    paths: Seq<PathVariantV>,
    ser: Seq<SerFieldV>,
    props: Map<Seq<char>, PropView>,
    cache: Map<u64, (Seq<char>, Decoder)>,
    bytes: Seq<u8>,
    pos: int,
    cls_id: i32,
    j: int,
)
    requires
        spec_apply_paths(paths, ser, props, cache, bytes, pos, false, cls_id) is Some,
        0 <= j < paths.len(),
    ensures
        spec_path_name(paths[j], ser) is Some,
        spec_apply_paths(
            paths,
            ser,
            props,
            cache,
            bytes,
            pos,
            false,
            cls_id,
        ).unwrap().0.contains_key(spec_path_name(paths[j], ser).unwrap()),
    decreases paths.len(),
{
    let rest = paths.subrange(1, paths.len() as int);
    match paths[0] {
        PathVariantV::Cache(name, dec) => {
            let (v, p2) = spec_decode_value(dec, bytes, pos).unwrap();
            if j == 0 {
                lemma_apply_paths_preserves_keys(
                    rest,
                    ser,
                    props.insert(name, v),
                    cache,
                    bytes,
                    p2,
                    false,
                    cls_id,
                    name,
                );
            } else {
                lemma_apply_paths_covers_names(
                    rest,
                    ser,
                    props.insert(name, v),
                    cache,
                    bytes,
                    p2,
                    cls_id,
                    j - 1,
                );
                assert(rest[j - 1] == paths[j]);
            }
        },
        PathVariantV::Normal(path, last) => {
            let (name, dec) = spec_find_decoder(ser, path, last, false).unwrap();
            let (v, p2) = spec_decode_value(dec, bytes, pos).unwrap();
            let cache2 = cache.insert(spec_path_key(path, last, cls_id), (name, dec));
            if j == 0 {
                lemma_apply_paths_preserves_keys(
                    rest,
                    ser,
                    props.insert(name, v),
                    cache2,
                    bytes,
                    p2,
                    false,
                    cls_id,
                    name,
                );
            } else {
                lemma_apply_paths_covers_names(
                    rest,
                    ser,
                    props.insert(name, v),
                    cache2,
                    bytes,
                    p2,
                    cls_id,
                    j - 1,
                );
                assert(rest[j - 1] == paths[j]);
            }
        },
    }
}

/// A path list whose first symbol is already the terminator yields no
/// paths, and the stream ends exactly where the terminator code ends.
pub proof fn lemma_immediate_terminator(
    bytes: Seq<u8>,
    pos: int,
    path: Seq<i32>,
    last: nat,
    cls_id: i32,
    cache: Map<u64, (Seq<char>, Decoder)>,
    fuel: nat,
    end: int,
)
    requires
        spec_read_symbol(bytes, pos, 0, 7) == Ok::<(i32, int), crate::BitReaderError>(
            (SYMBOL_FINISH, end),
        ),
    ensures
        spec_parse_paths(bytes, pos, path, last, cls_id, cache, fuel) == Some(
            (Seq::<PathVariantV>::empty(), end),
        ),
{
}

/// Pattern-cache idempotence: once a path's resolution is cached under its
/// packed key — as the walk behind [`crate::entities::spec_decode_update`]
/// does on every schema resolution — looking the key up again is a hit that
/// returns exactly the first resolution, and decoding with the cached
/// decoder yields the same value on the same input bits as the fresh one.
pub proof fn lemma_pattern_cache_idempotent(
    ser: Seq<SerFieldV>,
    path: Seq<i32>,
    last: nat,
    cls_id: i32,
    cache: Map<u64, (Seq<char>, Decoder)>,
    bytes: Seq<u8>,
    pos: int,
    name: Seq<char>,
    dec: Decoder,
)
    requires
        spec_find_decoder(ser, path, last, false) == Some((name, dec)),
    ensures
        ({
            let key = spec_path_key(path, last, cls_id);
            let cache2 = cache.insert(key, (name, dec));
            &&& cache2.contains_key(key)
            &&& cache2[key] == (name, dec)
            &&& spec_decode_value(cache2[key].1, bytes, pos) == spec_decode_value(dec, bytes, pos)
        }),
{
}

} // verus!
