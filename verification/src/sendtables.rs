//! The per-class property schema, as the entity decoder sees it.
//!
//! The real schema is a nested tree owned by an external collaborator; this
//! crate needs only its observable behaviour: a field path resolves to a
//! property name and a value decoder, and baseline decoding may pick a
//! different decoder for baseline-only fields.  A serializer is therefore a
//! flat table of path-keyed fields, registered before entity packets arrive.

use vstd::prelude::*;

verus! {

use crate::entities_utils::FieldPath;
use crate::variants::Decoder;

/// One resolvable field of a class's schema.
pub struct SerField {
    /// The full path of this field inside the schema tree.
    pub path: Vec<i32>,
    /// The property name that decoded values are stored under.
    pub name: String,
    /// The decoder for normal updates.
    pub decoder: Decoder,
    /// The decoder used in baseline mode, where it differs.
    pub baseline_decoder: Option<Decoder>,
}

/// Mathematical shadow of [`SerField`].
pub struct SerFieldV {
    pub path: Seq<i32>,
    pub name: Seq<char>,
    pub decoder: Decoder,
    pub baseline_decoder: Option<Decoder>,
}

impl View for SerField {
    type V = SerFieldV;

    open spec fn view(&self) -> SerFieldV {
        SerFieldV {
            path: self.path@,
            name: self.name@,
            decoder: self.decoder,
            baseline_decoder: self.baseline_decoder,
        }
    }
}

/// A class's schema: the fields a path can resolve to.
pub struct Serializer {
    pub fields: Vec<SerField>,
}

impl View for Serializer {
    type V = Seq<SerFieldV>;

    open spec fn view(&self) -> Seq<SerFieldV> {
        self.fields@.map_values(|f: SerField| f@)
    }
}

/// Whether a schema field sits exactly at the path's meaningful prefix.
pub open spec fn field_matches(f: SerFieldV, path: Seq<i32>, last: nat) -> bool {
    f.path == path.subrange(0, last as int + 1)
}

/// The decoder a field supplies in the given mode.
pub open spec fn pick_decoder(f: SerFieldV, is_baseline: bool) -> Decoder {
    if is_baseline {
        match f.baseline_decoder {
            Some(d) => d,
            None => f.decoder,
        }
    } else {
        f.decoder
    }
}

/// Resolution of a path against a schema: the first matching field's name
/// and mode-appropriate decoder.
pub open spec fn spec_find_decoder(
    fields: Seq<SerFieldV>,
    path: Seq<i32>,
    last: nat,
    is_baseline: bool,
) -> Option<(Seq<char>, Decoder)>
    decreases fields.len(),
{
    if fields.len() == 0 {
        None
    } else if field_matches(fields[0], path, last) {
        Some((fields[0].name, pick_decoder(fields[0], is_baseline)))
    } else {
        spec_find_decoder(fields.subrange(1, fields.len() as int), path, last, is_baseline)
    }
}

/// Whether `f` matches the meaningful prefix of `fp`.
fn matches_path(f: &SerField, fp: &FieldPath) -> (b: bool)
    requires
        fp.wf(),
    ensures
        b == field_matches(f@, fp.path@, fp.last as nat),
{
    if f.path.len() != fp.last + 1 {
        proof {
            assert(fp.path@.subrange(0, fp.last + 1).len() == fp.last + 1);
        }
        return false;
    }
    let mut k: usize = 0;
    while k <= fp.last
        invariant
            fp.wf(),
            k <= fp.last + 1,
            f.path@.len() == fp.last + 1,
            forall|j: int| 0 <= j < k ==> #[trigger] f.path@[j] == fp.path@[j],
        decreases fp.last + 1 - k,
    {
        if f.path[k] != fp.path[k] {
            proof {
                assert(fp.path@.subrange(0, fp.last + 1)[k as int] == fp.path@[k as int]);
            }
            return false;
        }
        k = k + 1;
    }
    proof {
        assert(f.path@ =~= fp.path@.subrange(0, fp.last + 1));
    }
    true
}

impl Serializer {
    /// Resolves a field path to a property name and a decoder for the given
    /// mode, or nothing if the schema has no field at that path.
    pub fn find_decoder(&self, fp: &FieldPath, is_baseline: bool) -> (r: Option<(String, Decoder)>)
        requires
            fp.wf(),
        ensures
            match r {
                Some(nd) => spec_find_decoder(self@, fp.path@, fp.last as nat, is_baseline)
                    == Some((nd.0@, nd.1)),
                None => spec_find_decoder(self@, fp.path@, fp.last as nat, is_baseline) is None,
            },
    {
        let n = self.fields.len();
        let mut i: usize = 0;
        proof {
            assert(self@.subrange(0, n as int) =~= self@);
        }
        while i < n
            invariant
                fp.wf(),
                n == self.fields@.len(),
                i <= n,
                self@.len() == n,
                spec_find_decoder(self@, fp.path@, fp.last as nat, is_baseline)
                    == spec_find_decoder(
                    self@.subrange(i as int, n as int),
                    fp.path@,
                    fp.last as nat,
                    is_baseline,
                ),
            decreases n - i,
        {
            let f = &self.fields[i];
            proof {
                assert(self@.subrange(i as int, n as int)[0] == self@[i as int]);
                assert(self@[i as int] == self.fields@[i as int]@);
            }
            if matches_path(f, fp) {
                let d: Decoder = if is_baseline {
                    match f.baseline_decoder {
                        Some(d) => d,
                        None => f.decoder,
                    }
                } else {
                    f.decoder
                };
                return Some((f.name.clone(), d));
            }
            proof {
                assert(self@.subrange(i as int, n as int).subrange(
                    1,
                    self@.subrange(i as int, n as int).len() as int,
                ) =~= self@.subrange(i + 1, n as int));
            }
            i = i + 1;
        }
        None
    }

    /// An independent deep copy, so each registered class owns its schema.
    pub fn duplicate(&self) -> (r: Serializer)
        ensures
            r@ == self@,
    {
        let n = self.fields.len();
        let mut out: Vec<SerField> = Vec::new();
        let mut i: usize = 0;
        while i < n
            invariant
                n == self.fields@.len(),
                i <= n,
                out@.len() == i,
                forall|j: int| 0 <= j < i ==> #[trigger] out@[j]@ == self.fields@[j]@,
            decreases n - i,
        {
            let f = &self.fields[i];
            let mut path: Vec<i32> = Vec::new();
            let mut k: usize = 0;
            let plen = f.path.len();
            while k < plen
                invariant
                    plen == f.path@.len(),
                    k <= plen,
                    path@.len() == k,
                    forall|j: int| 0 <= j < k ==> #[trigger] path@[j] == f.path@[j],
                decreases plen - k,
            {
                path.push(f.path[k]);
                k = k + 1;
            }
            proof {
                assert(path@ =~= f.path@);
            }
            out.push(
                SerField {
                    path,
                    name: f.name.clone(),
                    decoder: f.decoder,
                    baseline_decoder: f.baseline_decoder,
                },
            );
            i = i + 1;
        }
        let r = Serializer { fields: out };
        proof {
            assert(r@ =~= self@);
        }
        r
    }
}

} // verus!
