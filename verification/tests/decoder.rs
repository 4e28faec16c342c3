//! End-to-end tests of the entity-state decoder: bitstreams are written by
//! hand against the canonical code table and fed through the public entry
//! points.

use entity_decoder::class::ClassRecord;
use entity_decoder::entities::next_entity_id;
use entity_decoder::entities::path_to_key;
use entity_decoder::entities::Entity;
use entity_decoder::entities::PathVariant;
use entity_decoder::entities_utils::build_huffman_table;
use entity_decoder::entities_utils::FieldPath;
use entity_decoder::parser_settings::Parser;
use entity_decoder::read_bits::Bitreader;
use entity_decoder::sendtables::SerField;
use entity_decoder::sendtables::Serializer;
use entity_decoder::variants::Decoder;
use entity_decoder::variants::PropData;
use entity_decoder::variants::PropMap;
use entity_decoder::BitReaderError;

// ---- bitstream helpers: bits are consumed least-significant first ----

fn push_bits(v: &mut Vec<bool>, value: u64, n: u32) {
    for k in 0..n {
        v.push((value >> k) & 1 == 1);
    }
}

/// A Huffman code, written most-significant bit first.
fn push_code(v: &mut Vec<bool>, code: &str) {
    for c in code.chars() {
        v.push(c == '1');
    }
}

fn push_varint32(v: &mut Vec<bool>, mut x: u32) {
    loop {
        let b = (x & 0x7F) as u64;
        x >>= 7;
        if x == 0 {
            push_bits(v, b, 8);
            break;
        }
        push_bits(v, b | 0x80, 8);
    }
}

fn push_varint64(v: &mut Vec<bool>, mut x: u64) {
    loop {
        let b = x & 0x7F;
        x >>= 7;
        if x == 0 {
            push_bits(v, b, 8);
            break;
        }
        push_bits(v, b | 0x80, 8);
    }
}

fn pack(v: &[bool]) -> Vec<u8> {
    let mut out = vec![0u8; (v.len() + 7) / 8];
    for (i, b) in v.iter().enumerate() {
        if *b {
            out[i / 8] |= 1 << (i % 8);
        }
    }
    out
}

fn one_field_serializer(path: Vec<i32>, name: &str, decoder: Decoder) -> Serializer {
    Serializer {
        fields: vec![SerField {
            path,
            name: name.to_string(),
            decoder,
            baseline_decoder: None,
        }],
    }
}

// ---- bit reader ----

#[test]
fn read_nbits_is_little_endian() {
    let mut br = Bitreader::new(vec![0b1011_0010]);
    assert_eq!(br.read_nbits(4), Ok(0b0010));
    assert_eq!(br.read_nbits(4), Ok(0b1011));
    assert_eq!(br.read_nbits(1), Err(BitReaderError::OutOfBitsError));
}

#[test]
fn read_u_bit_var_small_value_is_itself() {
    let mut bits = Vec::new();
    push_bits(&mut bits, 3, 6);
    let mut br = Bitreader::new(pack(&bits));
    assert_eq!(br.read_u_bit_var(), Ok(3));
    assert_eq!(br.pos, 6);
}

#[test]
fn read_u_bit_var_extended_value() {
    // Selector 16: low 4 bits of the prefix, then 4 extension bits.
    let mut bits = Vec::new();
    push_bits(&mut bits, 16 | 0x5, 6);
    push_bits(&mut bits, 0xA, 4);
    let mut br = Bitreader::new(pack(&bits));
    assert_eq!(br.read_u_bit_var(), Ok(0x5 | (0xA << 4)));
}

#[test]
fn bit_varint_roundtrip() {
    let mut bits = Vec::new();
    push_varint32(&mut bits, 150);
    push_varint64(&mut bits, 76561198000000000);
    let mut br = Bitreader::new(pack(&bits));
    assert_eq!(br.read_varint(), Ok(150));
    assert_eq!(br.read_varint_u64(), Ok(76561198000000000));
}

#[test]
fn string_bytes_stop_at_zero() {
    let mut bits = Vec::new();
    for b in [b'h', b'i', 0u8] {
        push_bits(&mut bits, b as u64, 8);
    }
    let mut br = Bitreader::new(pack(&bits));
    assert_eq!(br.read_string_bytes(), Ok(vec![b'h', b'i']));
    assert_eq!(br.pos, 24);
}

// ---- byte reader on the session ----

#[test]
fn byte_varint_and_bounds() {
    let mut p = Parser::new(vec![0x96, 0x01, 0x07, 0x08], true);
    assert_eq!(p.read_varint(), Ok(150));
    p.skip_n_bytes(1);
    // A read that would touch the final byte is already out of bounds.
    assert!(matches!(p.read_n_bytes(1), Err(BitReaderError::OutOfBytesError)));
    let mut empty = Parser::new(vec![], true);
    assert_eq!(empty.read_varint(), Err(BitReaderError::OutOfBytesError));
}

#[test]
fn byte_varint_failure_consumes_continuation_bytes() {
    // A number cut off by the end of the stream fails with the cursor
    // advanced past the consumed continuation bytes, at the buffer end.
    let mut p = Parser::new(vec![0x80, 0x81], true);
    assert_eq!(p.read_varint(), Err(BitReaderError::OutOfBytesError));
    assert_eq!(p.ptr, 2);
}

#[test]
fn read_n_bytes_yields_slice() {
    let mut p = Parser::new(vec![1, 2, 3, 4, 5], true);
    assert_eq!(p.read_n_bytes(2).unwrap(), &[1, 2]);
    assert_eq!(p.ptr, 2);
}

// ---- huffman table and key packing ----

#[test]
fn huffman_table_shape() {
    let t = build_huffman_table();
    assert_eq!(t.len(), 128);
    assert_eq!(t[0], 0); // the most frequent operation owns code "0"
    assert_eq!(t[2], 1); // the terminator owns code "10"
    assert_eq!(t[3], -1); // an incomplete prefix
    assert_eq!(t[127], 12);
}

#[test]
fn path_key_packs_fourteen_bits_per_segment() {
    let fp = FieldPath { done: false, path: [1, 2, 0, 0, 0, 0, 0], last: 1 };
    assert_eq!(path_to_key(&fp, 7), (1u64 << 28) | (2u64 << 14) | 7);
}

#[test]
fn entity_id_cursor_overflow_is_an_error() {
    assert_eq!(next_entity_id(-1, 3), Ok(3));
    assert_eq!(next_entity_id(3, 0), Ok(4));
    assert_eq!(
        next_entity_id(i32::MAX, 0),
        Err(BitReaderError::MalformedMessage)
    );
}

// ---- field-path decoding ----

#[test]
fn immediate_terminator_yields_no_paths() {
    let mut p = Parser::new(vec![], true);
    let mut bits = Vec::new();
    push_code(&mut bits, "10");
    push_bits(&mut bits, 0, 6); // trailing junk that must stay unread
    let mut br = Bitreader::new(pack(&bits));
    assert_eq!(p.parse_paths(&mut br, 1), Ok(0));
    assert_eq!(br.pos, 2); // nothing consumed past the terminator code
}

#[test]
fn out_of_bits_in_path_list_is_an_error() {
    let mut p = Parser::new(vec![], true);
    let mut br = Bitreader::new(vec![]);
    assert_eq!(p.parse_paths(&mut br, 1), Err(BitReaderError::OutOfBitsError));
}

// ---- class registry ----

#[test]
fn class_registration_failures() {
    let mut p = Parser::new(vec![], true);
    let records = vec![ClassRecord { class_id: 0, network_name: "CWorld".to_string() }];
    // No serializer registered under that name.
    assert_eq!(
        p.parse_class_info(&records),
        Err(BitReaderError::MalformedMessage)
    );
    p.register_serializer(
        "CWorld".to_string(),
        one_field_serializer(vec![0], "m_count", Decoder::VarU32),
    );
    assert_eq!(p.parse_class_info(&records), Ok(()));
    let negative = vec![ClassRecord { class_id: -4, network_name: "CWorld".to_string() }];
    assert_eq!(
        p.parse_class_info(&negative),
        Err(BitReaderError::MalformedMessage)
    );
}

#[test]
fn disabled_session_ignores_messages() {
    let mut p = Parser::new(vec![], false);
    let records = vec![ClassRecord { class_id: 0, network_name: "CNothing".to_string() }];
    assert_eq!(p.parse_class_info(&records), Ok(()));
    assert_eq!(p.parse_packet_ents(5, Some(vec![1, 2, 3])), Ok(()));
    assert!(p.cls_by_id.is_empty());
    assert!(p.entities.is_empty());
}

#[test]
fn missing_payload_is_malformed() {
    let mut p = Parser::new(vec![], true);
    assert_eq!(
        p.parse_packet_ents(1, None),
        Err(BitReaderError::MalformedMessage)
    );
}

// ---- entity lifecycle ----

fn create_update_bits(bits: &mut Vec<bool>, delta: u32, cls_id: u64, cls_bits: u32) {
    push_bits(bits, delta as u64, 6); // id delta as a short variable-width int
    push_bits(bits, 0, 1); // not a delete
    push_bits(bits, 1, 1); // a new entity
    push_bits(bits, cls_id, cls_bits);
    push_bits(bits, 0, 17); // serial, discarded
    push_varint32(bits, 0); // network artifact, discarded
    push_code(bits, "10"); // empty live delta
}

#[test]
fn reconstructed_ids_follow_the_deltas() {
    let mut p = Parser::new(vec![], true);
    p.register_serializer(
        "CWorld".to_string(),
        one_field_serializer(vec![0], "m_count", Decoder::VarU32),
    );
    let records = vec![ClassRecord { class_id: 0, network_name: "CWorld".to_string() }];
    p.parse_class_info(&records).unwrap();
    assert_eq!(p.cls_bits, Some(0)); // one class takes zero bits on the wire
    let mut bits = Vec::new();
    create_update_bits(&mut bits, 0, 0, 0);
    create_update_bits(&mut bits, 0, 0, 0);
    create_update_bits(&mut bits, 2, 0, 0);
    p.parse_packet_ents(3, Some(pack(&bits))).unwrap();
    // deltas 0, 0, 2 from a cursor of -1: ids 0, 1, 4.
    assert!(p.entities.contains_key(&0));
    assert!(p.entities.contains_key(&1));
    assert!(p.entities.contains_key(&4));
    assert_eq!(p.entities.len(), 3);
}

#[test]
fn delete_removes_entity_and_tracked_ids() {
    let mut p = Parser::new(vec![], true);
    p.register_serializer(
        "CSmokeGrenadeProjectile".to_string(),
        one_field_serializer(vec![0], "m_count", Decoder::VarU32),
    );
    let records = vec![ClassRecord {
        class_id: 0,
        network_name: "CSmokeGrenadeProjectile".to_string(),
    }];
    p.parse_class_info(&records).unwrap();
    let mut bits = Vec::new();
    create_update_bits(&mut bits, 0, 0, 0);
    p.parse_packet_ents(1, Some(pack(&bits))).unwrap();
    assert!(p.entities.contains_key(&0));
    assert!(p.projectiles.contains(&0));

    let mut del = Vec::new();
    push_bits(&mut del, 0, 6); // delta 0: the cursor lands on id 0 again
    push_bits(&mut del, 1, 1); // delete
    push_bits(&mut del, 0, 1); // reserved bit
    p.parse_packet_ents(1, Some(pack(&del))).unwrap();
    assert!(!p.entities.contains_key(&0));
    assert!(!p.projectiles.contains(&0));
    assert_eq!(p.get_prop_for_ent("m_count", &0), None);
}

#[test]
fn baseline_seeds_new_entity_and_empty_delta_keeps_it() {
    let mut p = Parser::new(vec![], true);
    p.register_serializer(
        "CBasePlayerPawn".to_string(),
        one_field_serializer(vec![0], "m_iHealth", Decoder::VarU32),
    );
    let mut records = Vec::new();
    for id in 0..6 {
        records.push(ClassRecord { class_id: id, network_name: "CBasePlayerPawn".to_string() });
    }
    p.parse_class_info(&records).unwrap();
    assert_eq!(p.cls_bits, Some(3)); // six classes take three bits

    // Baseline for class 5: property path, terminator, value 100, padding so
    // that the 32-bit baseline guard does not cut the value off.
    let mut bl = Vec::new();
    push_code(&mut bl, "0"); // advance to the first property
    push_code(&mut bl, "10"); // terminator
    push_varint32(&mut bl, 100);
    push_bits(&mut bl, 0, 53);
    p.set_baseline(5, pack(&bl));

    // One update: create entity 3 as class 5 with an empty live delta.
    let mut bits = Vec::new();
    create_update_bits(&mut bits, 3, 5, 3);
    p.parse_packet_ents(1, Some(pack(&bits))).unwrap();
    assert_eq!(p.get_prop_for_ent("m_iHealth", &3), Some(PropData::U32(100)));
}

#[test]
fn baseline_guard_skips_trailing_padding() {
    // A baseline whose value sits within 32 bits of the end is skipped by
    // the padding guard rather than failing the decode.
    let mut p = Parser::new(vec![], true);
    p.register_serializer(
        "CWorld".to_string(),
        one_field_serializer(vec![0], "m_count", Decoder::VarU32),
    );
    let records = vec![ClassRecord { class_id: 0, network_name: "CWorld".to_string() }];
    p.parse_class_info(&records).unwrap();
    let mut bl = Vec::new();
    push_code(&mut bl, "0");
    push_code(&mut bl, "10");
    push_varint32(&mut bl, 100); // only 11 bits in all: under the guard
    p.set_baseline(0, pack(&bl));
    let mut bits = Vec::new();
    create_update_bits(&mut bits, 0, 0, 0);
    p.parse_packet_ents(1, Some(pack(&bits))).unwrap();
    assert_eq!(p.get_prop_for_ent("m_count", &0), None);
}

#[test]
fn exhausted_stream_surfaces_out_of_bits_and_commits_nothing_partial() {
    let mut p = Parser::new(vec![], true);
    p.register_serializer(
        "CWorld".to_string(),
        one_field_serializer(vec![0], "m_count", Decoder::VarU32),
    );
    let records = vec![ClassRecord { class_id: 0, network_name: "CWorld".to_string() }];
    p.parse_class_info(&records).unwrap();
    // Header claims three updates; the bits carry only two deletes.
    let mut bits = Vec::new();
    for _ in 0..2 {
        push_bits(&mut bits, 0, 6);
        push_bits(&mut bits, 1, 1);
        push_bits(&mut bits, 0, 1);
    }
    let r = p.parse_packet_ents(3, Some(pack(&bits)));
    assert_eq!(r, Err(BitReaderError::OutOfBitsError));
    assert!(p.entities.is_empty()); // no third-entity state was committed
}

#[test]
fn unknown_entity_and_unknown_class_are_errors() {
    let mut p = Parser::new(vec![], true);
    let mut br = Bitreader::new(vec![0b0000_0001]); // terminator "10" first
    assert_eq!(
        p.decode_entity_update(&mut br, 99, false),
        Err(BitReaderError::EntityNotFound)
    );
    p.entities.insert(7, Entity { cls_id: 42, entity_id: 7, props: PropMap::new() });
    let mut br2 = Bitreader::new(vec![0b0000_0001]);
    assert_eq!(
        p.decode_entity_update(&mut br2, 7, false),
        Err(BitReaderError::ClassNotFound)
    );
}

// ---- pattern cache ----

#[test]
fn cache_hit_reproduces_the_first_resolution() {
    let mut p = Parser::new(vec![], true);
    p.register_serializer(
        "CWorld".to_string(),
        one_field_serializer(vec![0], "m_count", Decoder::VarU32),
    );
    let records = vec![ClassRecord { class_id: 0, network_name: "CWorld".to_string() }];
    p.parse_class_info(&records).unwrap();
    p.entities.insert(10, Entity { cls_id: 0, entity_id: 10, props: PropMap::new() });
    p.entities.insert(11, Entity { cls_id: 0, entity_id: 11, props: PropMap::new() });

    let mut bits = Vec::new();
    push_code(&mut bits, "0");
    push_code(&mut bits, "10");
    push_varint32(&mut bits, 42);
    let update = pack(&bits);

    assert!(p.pattern_cache.is_empty());
    let mut br = Bitreader::new(update.clone());
    p.decode_entity_update(&mut br, 10, false).unwrap();
    assert_eq!(p.pattern_cache.len(), 1); // the first resolution is cached

    let mut br2 = Bitreader::new(update);
    p.decode_entity_update(&mut br2, 11, false).unwrap();
    // The second resolution was served from the cache...
    assert!(matches!(p.paths[0], PathVariant::Cache(_, _)));
    // ...and produced the identical decoded output.
    assert_eq!(p.get_prop_for_ent("m_count", &10), Some(PropData::U32(42)));
    assert_eq!(p.get_prop_for_ent("m_count", &11), Some(PropData::U32(42)));
}

// ---- player extraction ----

#[test]
fn controller_update_populates_player_metadata() {
    let mut p = Parser::new(vec![], true);
    let ser = Serializer {
        fields: vec![
            SerField {
                path: vec![0],
                name: "m_steamID".to_string(),
                decoder: Decoder::VarU64,
                baseline_decoder: None,
            },
            SerField {
                path: vec![1],
                name: "m_hPlayerPawn".to_string(),
                decoder: Decoder::VarU32,
                baseline_decoder: None,
            },
            SerField {
                path: vec![2],
                name: "m_iszPlayerName".to_string(),
                decoder: Decoder::Str,
                baseline_decoder: None,
            },
        ],
    };
    p.register_serializer("CCSPlayerController".to_string(), ser);
    let records = vec![ClassRecord { class_id: 0, network_name: "CCSPlayerController".to_string() }];
    p.parse_class_info(&records).unwrap();
    p.entities.insert(3, Entity { cls_id: 0, entity_id: 3, props: PropMap::new() });

    let mut bits = Vec::new();
    push_code(&mut bits, "0"); // path 0
    push_code(&mut bits, "0"); // path 1
    push_code(&mut bits, "0"); // path 2
    push_code(&mut bits, "10"); // terminator
    push_varint64(&mut bits, 76561198000000000);
    push_varint32(&mut bits, 0x83FF);
    for b in [b'N', b'e', b'o', 0u8] {
        push_bits(&mut bits, b as u64, 8);
    }
    let mut br = Bitreader::new(pack(&bits));
    p.decode_entity_update(&mut br, 3, false).unwrap();

    // Pawn id is the low 11 bits of the handle; the steam id is exact.
    let md = p.players.get(&0x3FF).expect("player record");
    assert_eq!(md.player_entity_id, 0x3FF);
    assert_eq!(md.steamid, 76561198000000000);
    assert_eq!(md.controller_entid, 3);
    assert_eq!(md.name, "Neo");
    assert_eq!(
        p.get_prop_for_ent("m_hPlayerPawn", &3),
        Some(PropData::U32(0x83FF))
    );
    assert_eq!(
        p.get_prop_for_ent("player_entid", &3),
        Some(PropData::I32(0x3FF))
    );
    assert_eq!(
        p.get_prop_for_ent("m_steamID", &3),
        Some(PropData::U64(76561198000000000))
    );
    assert_eq!(
        p.get_prop_for_ent("m_iszPlayerName", &3),
        Some(PropData::String("Neo".to_string()))
    );
}

#[test]
fn property_writes_are_last_write_wins() {
    let mut m = PropMap::new();
    m.insert("a".to_string(), PropData::U32(1));
    m.insert("a".to_string(), PropData::U32(2));
    m.insert("b".to_string(), PropData::Bool(true));
    assert_eq!(m.get(&"a".to_string()), Some(&PropData::U32(2)));
    assert_eq!(m.get(&"b".to_string()), Some(&PropData::Bool(true)));
    assert_eq!(m.get(&"c".to_string()), None);
}

#[test]
fn nested_paths_resolve_through_push_operations() {
    let mut p = Parser::new(vec![], true);
    let ser = Serializer {
        fields: vec![
            SerField {
                path: vec![0, 1],
                name: "m_nested".to_string(),
                decoder: Decoder::VarU32,
                baseline_decoder: None,
            },
        ],
    };
    p.register_serializer("CWorld".to_string(), ser);
    let records = vec![ClassRecord { class_id: 0, network_name: "CWorld".to_string() }];
    p.parse_class_info(&records).unwrap();
    p.entities.insert(1, Entity { cls_id: 0, entity_id: 1, props: PropMap::new() });

    let mut bits = Vec::new();
    push_code(&mut bits, "1111100"); // advance, then push a read segment...
    push_varint32(&mut bits, 1); // ...of value 1: path [0, 1]
    push_code(&mut bits, "10");
    push_varint32(&mut bits, 9000);
    let mut br = Bitreader::new(pack(&bits));
    p.decode_entity_update(&mut br, 1, false).unwrap();
    assert_eq!(p.get_prop_for_ent("m_nested", &1), Some(PropData::U32(9000)));
}

#[test]
fn pop_operation_climbs_back_out_of_a_branch() {
    let mut p = Parser::new(vec![], true);
    let ser = Serializer {
        fields: vec![
            SerField {
                path: vec![0, 0],
                name: "m_inner".to_string(),
                decoder: Decoder::VarU32,
                baseline_decoder: None,
            },
            SerField {
                path: vec![1],
                name: "m_outer".to_string(),
                decoder: Decoder::Boolean,
                baseline_decoder: None,
            },
        ],
    };
    p.register_serializer("CWorld".to_string(), ser);
    let records = vec![ClassRecord { class_id: 0, network_name: "CWorld".to_string() }];
    p.parse_class_info(&records).unwrap();
    p.entities.insert(2, Entity { cls_id: 0, entity_id: 2, props: PropMap::new() });

    let mut bits = Vec::new();
    push_code(&mut bits, "1101"); // advance and push a zero segment: path [0, 0]
    push_code(&mut bits, "1111101"); // pop one, increment: path [1]
    push_code(&mut bits, "10");
    push_varint32(&mut bits, 7);
    push_bits(&mut bits, 1, 1); // the boolean property
    let mut br = Bitreader::new(pack(&bits));
    p.decode_entity_update(&mut br, 2, false).unwrap();
    assert_eq!(p.get_prop_for_ent("m_inner", &2), Some(PropData::U32(7)));
    assert_eq!(p.get_prop_for_ent("m_outer", &2), Some(PropData::Bool(true)));
}

#[test]
fn fixed_and_float_decoders_read_raw_bits() {
    let mut bits = Vec::new();
    push_bits(&mut bits, 0b101, 3);
    push_bits(&mut bits, 0x4048F5C3, 32); // raw float bits travel unconverted
    let mut br = Bitreader::new(pack(&bits));
    assert_eq!(br.decode(&Decoder::Fixed(3)), Ok(PropData::U32(0b101)));
    assert_eq!(br.decode(&Decoder::Float32), Ok(PropData::FloatBits(0x4048F5C3)));
    assert_eq!(
        br.decode(&Decoder::Fixed(33)),
        Err(BitReaderError::MalformedMessage)
    );
}

#[test]
fn later_serializer_registration_shadows_earlier() {
    let mut p = Parser::new(vec![], true);
    p.register_serializer(
        "CWorld".to_string(),
        one_field_serializer(vec![0], "m_old", Decoder::VarU32),
    );
    p.register_serializer(
        "CWorld".to_string(),
        one_field_serializer(vec![0], "m_new", Decoder::VarU32),
    );
    let records = vec![ClassRecord { class_id: 0, network_name: "CWorld".to_string() }];
    p.parse_class_info(&records).unwrap();
    p.entities.insert(0, Entity { cls_id: 0, entity_id: 0, props: PropMap::new() });
    let mut bits = Vec::new();
    push_code(&mut bits, "0");
    push_code(&mut bits, "10");
    push_varint32(&mut bits, 5);
    let mut br = Bitreader::new(pack(&bits));
    p.decode_entity_update(&mut br, 0, false).unwrap();
    assert_eq!(p.get_prop_for_ent("m_new", &0), Some(PropData::U32(5)));
    assert_eq!(p.get_prop_for_ent("m_old", &0), None);
}

#[test]
fn baseline_refresh_replaces_the_blob() {
    let mut p = Parser::new(vec![], true);
    p.register_serializer(
        "CWorld".to_string(),
        one_field_serializer(vec![0], "m_count", Decoder::VarU32),
    );
    let records = vec![ClassRecord { class_id: 0, network_name: "CWorld".to_string() }];
    p.parse_class_info(&records).unwrap();
    let mut bl = Vec::new();
    push_code(&mut bl, "0");
    push_code(&mut bl, "10");
    push_varint32(&mut bl, 1);
    push_bits(&mut bl, 0, 53);
    p.set_baseline(0, pack(&bl));
    let mut bl2 = Vec::new();
    push_code(&mut bl2, "0");
    push_code(&mut bl2, "10");
    push_varint32(&mut bl2, 2);
    push_bits(&mut bl2, 0, 53);
    p.set_baseline(0, pack(&bl2)); // a mid-stream refresh replaces the blob
    let mut bits = Vec::new();
    create_update_bits(&mut bits, 0, 0, 0);
    p.parse_packet_ents(1, Some(pack(&bits))).unwrap();
    assert_eq!(p.get_prop_for_ent("m_count", &0), Some(PropData::U32(2)));
}
