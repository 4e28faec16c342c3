//! The class registry: per-class schema binding.

use vstd::prelude::*;

verus! {

broadcast use vstd::std_specs::hash::group_hash_axioms;

use std::collections::HashSet;

use crate::BitReaderError;
use crate::parser_settings::Parser;
use crate::parser_settings::cls_view;
use crate::parser_settings::ser_lookup;
use crate::parser_settings::ceil_log2;
use crate::sendtables::SerFieldV;
use crate::sendtables::Serializer;

/// A registered class: its id, network name, an independent copy of its
/// schema, and the path keys already seen for it.
pub struct Class {
    pub class_id: i32,
    pub name: String,
    pub serializer: Serializer,
    pub history: HashSet<u64>,
}

/// Mathematical shadow of [`Class`].
pub struct ClsV {
    pub class_id: i32,
    pub name: Seq<char>,
    pub serializer: Seq<SerFieldV>,
    pub history: Set<u64>,
}

impl View for Class {
    type V = ClsV;

    open spec fn view(&self) -> ClsV {
        ClsV {
            class_id: self.class_id,
            name: self.name@,
            serializer: self.serializer@,
            history: self.history@,
        }
    }
}

/// One class-metadata record, as the framing collaborator yields it.
pub struct ClassRecord {
    pub class_id: i32,
    pub network_name: String,
}

impl View for ClassRecord {
    type V = (int, Seq<char>);

    open spec fn view(&self) -> (int, Seq<char>) {
        (self.class_id as int, self.network_name@)
    }
}

/// Registration of a record list into the abstract class table: each record
/// binds its id to its name, the schema registered under that name, and an
/// empty history; a negative id or an unknown name fails the whole message.
pub open spec fn spec_register(
    records: Seq<(int, Seq<char>)>,
    sers: Seq<(String, Serializer)>,
    cv: Map<u32, ClsV>,
) -> Option<Map<u32, ClsV>>
    decreases records.len(),
{
    if records.len() == 0 {
        Some(cv)
    } else {
        let id = records[0].0;
        let name = records[0].1;
        if id < 0 {
            None
        } else {
            match ser_lookup(sers, name) {
                None => None,
                Some(sv) => spec_register(
                    records.subrange(1, records.len() as int),
                    sers,
                    cv.insert(
                        id as u32,
                        ClsV {
                            class_id: id as i32,
                            name,
                            serializer: sv,
                            history: Set::empty(),
                        },
                    ),
                ),
            }
        }
    }
}

impl Parser {
    /// Looks a schema up by class network name.
    fn find_serializer(&self, name: &String) -> (r: Option<&Serializer>)
        ensures
            match r {
                Some(s) => ser_lookup(self.serializers@, name@) == Some(s@),
                None => ser_lookup(self.serializers@, name@) is None,
            },
    {
        let n = self.serializers.len();
        let mut i: usize = 0;
        proof {
            assert(self.serializers@.subrange(0, n as int) =~= self.serializers@);
        }
        while i < n
            invariant
                n == self.serializers@.len(),
                i <= n,
                ser_lookup(self.serializers@, name@) == ser_lookup(
                    self.serializers@.subrange(i as int, n as int),
                    name@,
                ),
            decreases n - i,
        {
            proof {
                assert(self.serializers@.subrange(i as int, n as int)[0] == self.serializers@[
                    i as int]);
            }
            if self.serializers[i].0 == *name {
                return Some(&self.serializers[i].1);
            }
            proof {
                assert(self.serializers@.subrange(i as int, n as int).subrange(
                    1,
                    (n - i) as int,
                ) =~= self.serializers@.subrange(i + 1, n as int));
            }
            i = i + 1;
        }
        None
    }

    /// Registers every class named in a class-metadata message: each gets an
    /// independent copy of the schema registered under its network name and
    /// an empty history.  Afterwards the wire width of a class id is fixed
    /// from the number of registered classes.  Does nothing when entity
    /// parsing is off.
    pub fn parse_class_info(&mut self, classes: &Vec<ClassRecord>) -> (r: Result<
        (),
        BitReaderError,
    >)
        requires
            old(self).wf(),
        ensures
            final(self).wf(),
            final(self).bytes@ == old(self).bytes@,
            final(self).ptr == old(self).ptr,
            final(self).parse_entities == old(self).parse_entities,
            final(self).serializers == old(self).serializers,
            final(self).baselines == old(self).baselines,
            final(self).entities == old(self).entities,
            final(self).projectiles == old(self).projectiles,
            final(self).players == old(self).players,
            final(self).rules_entity_id == old(self).rules_entity_id,
            final(self).pattern_cache == old(self).pattern_cache,
            !old(self).parse_entities ==> r is Ok && final(self).cls_by_id == old(self).cls_by_id
                && final(self).cls_bits == old(self).cls_bits,
            old(self).parse_entities ==> match r {
                Ok(_) => {
                    &&& spec_register(
                        classes@.map_values(|c: ClassRecord| c@),
                        old(self).serializers@,
                        cls_view(old(self).cls_by_id@),
                    ) matches Some(cv) && cls_view(final(self).cls_by_id@) == cv
                    &&& final(self).cls_bits matches Some(b) && b <= 32
                },
                Err(e) => e == BitReaderError::MalformedMessage,
            },
            old(self).parse_entities && spec_register(
                classes@.map_values(|c: ClassRecord| c@),
                old(self).serializers@,
                cls_view(old(self).cls_by_id@),
            ) is None ==> r is Err,
            old(self).parse_entities && (spec_register(
                classes@.map_values(|c: ClassRecord| c@),
                old(self).serializers@,
                cls_view(old(self).cls_by_id@),
            ) matches Some(cv) && cv.len() <= 0x1_0000_0000) ==> r is Ok,
    {
        if !self.parse_entities {
            return Ok(());
        }
        let ghost rv = classes@.map_values(|c: ClassRecord| c@);
        let n = classes.len();
        let mut i: usize = 0;
        proof {
            assert(rv.subrange(0, n as int) =~= rv);
        }
        while i < n
            invariant
                self.wf(),
                old(self).parse_entities,
                n == classes@.len(),
                rv == classes@.map_values(|c: ClassRecord| c@),
                i <= n,
                self.bytes@ == old(self).bytes@,
                self.ptr == old(self).ptr,
                self.parse_entities == old(self).parse_entities,
                self.serializers == old(self).serializers,
                self.baselines == old(self).baselines,
                self.entities == old(self).entities,
                self.projectiles == old(self).projectiles,
                self.players == old(self).players,
                self.rules_entity_id == old(self).rules_entity_id,
                self.pattern_cache == old(self).pattern_cache,
                self.cls_bits == old(self).cls_bits,
                spec_register(rv, old(self).serializers@, cls_view(old(self).cls_by_id@))
                    == spec_register(
                    rv.subrange(i as int, n as int),
                    old(self).serializers@,
                    cls_view(self.cls_by_id@),
                ),
            decreases n - i,
        {
            proof {
                assert(rv.subrange(i as int, n as int)[0] == rv[i as int]);
                assert(rv[i as int] == classes@[i as int]@);
            }
            let record = &classes[i];
            if record.class_id < 0 {
                return Err(BitReaderError::MalformedMessage);
            }
            let ser = match self.find_serializer(&record.network_name) {
                Some(s) => s.duplicate(),
                None => {
                    return Err(BitReaderError::MalformedMessage);
                },
            };
            let cls = Class {
                class_id: record.class_id,
                name: record.network_name.clone(),
                serializer: ser,
                history: HashSet::new(),
            };
            let ghost pre_map = self.cls_by_id@;
            self.cls_by_id.insert(record.class_id as u32, cls);
            proof {
                assert(cls_view(self.cls_by_id@) =~= cls_view(pre_map).insert(
                    record.class_id as u32,
                    ClsV {
                        class_id: record.class_id,
                        name: record.network_name@,
                        serializer: ser_lookup(
                            old(self).serializers@,
                            record.network_name@,
                        ).unwrap(),
                        history: Set::empty(),
                    },
                ));
                assert(rv.subrange(i as int, n as int).subrange(1, (n - i) as int) =~= rv.subrange(
                    i + 1,
                    n as int,
                ));
            }
            i = i + 1;
        }
        let count = self.cls_by_id.len();
        proof {
            assert(cls_view(self.cls_by_id@).dom() =~= self.cls_by_id@.dom());
        }
        if count as u64 > 0x1_0000_0000u64 {
            return Err(BitReaderError::MalformedMessage);
        }
        let bits = ceil_log2(count);
        proof {
            if bits > 32 {
                assert((1u64 << 32u32) < count as u64);
                assert((1u64 << 32u32) == 0x1_0000_0000u64) by (bit_vector);
            }
        }
        self.cls_bits = Some(bits);
        Ok(())
    }
}

} // verus!
