//! The record codec: encoding logical property maps into slot values and
//! decoding stored slot values back into logical property maps.
//!
//! Both directions are pure functions of the mapping and their input.
//! Encoding copies each logical value into the slot its property is mapped
//! to and refuses a value that does not fit the slot's type; properties
//! that no slot is mapped to are silently dropped. Decoding presents the
//! five fixed system fields under their own names, and each mapped slot's
//! value under the property its slot is mapped to; slots without a mapping
//! are omitted.

use vstd::prelude::*;

use crate::common::StoreError;
use crate::item::Record;
use crate::mapping::{is_system_property, prop_mapped, Mapping};
use crate::mapping::{lemma_slot_map_contains, lemma_slot_map_index};
use crate::slot::{empty_slots, fits, get_slot, is_default_val, set_slot, slot_val, SlotId, Slots};
use crate::value::{keys_unique, lookup, map_view, upsert, Value};

verus! {

/// Whether every logical value whose property is mapped to a slot fits
/// that slot; encoding succeeds exactly on such inputs.
pub open spec fn encode_ok(mv: Map<SlotId, Seq<char>>, lm: Map<Seq<char>, Value>) -> bool {
    forall|sl: SlotId|
        #![trigger mv.contains_key(sl)]
        mv.contains_key(sl) && lm.contains_key(mv[sl]) ==> fits(lm[mv[sl]], sl)
}

/// What encoding onto a base body yields: a slot whose property the input
/// supplies holds that value; every other slot keeps the base's value.
pub open spec fn encodes(
    mv: Map<SlotId, Seq<char>>,
    lm: Map<Seq<char>, Value>,
    base: Slots,
    enc: Slots,
) -> bool {
    &&& forall|sl: SlotId|
        #![trigger slot_val(enc, sl)]
        mv.contains_key(sl) && lm.contains_key(mv[sl]) ==> slot_val(enc, sl) == lm[mv[sl]]
    &&& forall|sl: SlotId|
        #![trigger slot_val(enc, sl)]
        !(mv.contains_key(sl) && lm.contains_key(mv[sl])) ==> slot_val(enc, sl) == slot_val(
            base,
            sl,
        )
}

/// What encoding onto an untouched body yields: a slot whose property the
/// input supplies holds that value; every other slot is at its default.
pub open spec fn encodes_fresh(
    mv: Map<SlotId, Seq<char>>,
    lm: Map<Seq<char>, Value>,
    enc: Slots,
) -> bool {
    &&& forall|sl: SlotId|
        #![trigger slot_val(enc, sl)]
        mv.contains_key(sl) && lm.contains_key(mv[sl]) ==> slot_val(enc, sl) == lm[mv[sl]]
    &&& forall|sl: SlotId|
        #![trigger slot_val(enc, sl)]
        !(mv.contains_key(sl) && lm.contains_key(mv[sl])) ==> is_default_val(
            slot_val(enc, sl),
            sl,
        )
}

/// What decoding a record yields: the five system fields under their own
/// names, each mapped slot's value under its property, nothing else.
pub open spec fn decodes(
    mv: Map<SlotId, Seq<char>>,
    rec: Record,
    dm: Map<Seq<char>, Value>,
) -> bool {
    &&& forall|p: Seq<char>|
        #![trigger dm.contains_key(p)]
        dm.contains_key(p) <==> (is_system_property(p) || prop_mapped(mv, p))
    &&& dm["id"@] == Value::Num(rec.id as i64)
    &&& dm["parent_id"@] == Value::Num(rec.parent_id as i64)
    &&& dm["sort"@] == Value::Num(rec.sort as i64)
    &&& dm["gmt_create"@] == Value::Num(rec.gmt_create)
    &&& dm["gmt_modified"@] == Value::Num(rec.gmt_modified)
    &&& forall|sl: SlotId|
        #![trigger mv.contains_key(sl)]
        mv.contains_key(sl) ==> dm[mv[sl]] == slot_val(rec.slots, sl)
}

/// Encodes a logical map onto an existing record body: slots whose mapped
/// property the input supplies take the supplied value, the rest keep what
/// they held. A value that does not fit its slot refuses the whole input.
pub fn apply_slots(m: &Mapping, logical: &Vec<(String, Value)>, base: &Slots) -> (r: Result<
    Slots,
    StoreError,
>)
    requires
        m.wf(),
        keys_unique(logical@),
    ensures
        match r {
            Ok(enc) => encode_ok(m@, map_view(logical@)) && encodes(
                m@,
                map_view(logical@),
                *base,
                enc,
            ),
            Err(e) => e == StoreError::BadRequest && !encode_ok(m@, map_view(logical@)),
        },
{
    let ghost mv = m@;
    let ghost lm = map_view(logical@);
    let mut cur = base.clone();
    let n = m.pairs.len();
    for k in 0..n
        invariant
            n == m.pairs@.len(),
            m.wf(),
            keys_unique(logical@),
            mv == m@,
            lm == map_view(logical@),
            forall|j: int|
                0 <= j < k && lm.contains_key((#[trigger] m.pairs@[j]).1@) ==> slot_val(
                    cur,
                    m.pairs@[j].0,
                ) == lm[m.pairs@[j].1@] && fits(lm[m.pairs@[j].1@], m.pairs@[j].0),
            forall|sl: SlotId|
                #![trigger slot_val(cur, sl)]
                (exists|j: int|
                    0 <= j < k && (#[trigger] m.pairs@[j]).0 == sl && lm.contains_key(
                        m.pairs@[j].1@,
                    )) || slot_val(cur, sl) == slot_val(*base, sl),
    {
        let sl = m.pairs[k].0;
        match lookup(logical, &m.pairs[k].1) {
            Some(v) => {
                let ghost vg = v;
                if !set_slot(&mut cur, sl, v) {
                    proof {
                        lemma_slot_map_index(m.pairs@, k as int);
                        assert(mv.contains_key(sl) && lm.contains_key(mv[sl]) && !fits(
                            lm[mv[sl]],
                            sl,
                        ));
                    }
                    return Err(StoreError::BadRequest);
                }
                proof {
                    assert forall|j: int|
                        0 <= j < k + 1 && lm.contains_key(
                            (#[trigger] m.pairs@[j]).1@,
                        ) implies slot_val(cur, m.pairs@[j].0) == lm[m.pairs@[j].1@] && fits(
                        lm[m.pairs@[j].1@],
                        m.pairs@[j].0,
                    ) by {
                        if j < k {
                            assert(m.pairs@[j].0 != m.pairs@[k as int].0);
                        }
                    }
                }
            },
            None => {},
        }
    }
    proof {
        assert(encode_ok(mv, lm)) by {
            assert forall|sl: SlotId|
                #![trigger mv.contains_key(sl)]
                mv.contains_key(sl) && lm.contains_key(mv[sl]) implies fits(lm[mv[sl]], sl) by {
                lemma_slot_map_contains(m.pairs@, sl);
                let j = choose|j: int| 0 <= j < m.pairs@.len() && (#[trigger] m.pairs@[j]).0 == sl;
                lemma_slot_map_index(m.pairs@, j);
            }
        }
        assert(encodes(mv, lm, *base, cur)) by {
            assert forall|sl: SlotId|
                #![trigger slot_val(cur, sl)]
                mv.contains_key(sl) && lm.contains_key(mv[sl]) implies slot_val(cur, sl)
                == lm[mv[sl]] by {
                lemma_slot_map_contains(m.pairs@, sl);
                let j = choose|j: int| 0 <= j < m.pairs@.len() && (#[trigger] m.pairs@[j]).0 == sl;
                lemma_slot_map_index(m.pairs@, j);
            }
            assert forall|sl: SlotId|
                #![trigger slot_val(cur, sl)]
                !(mv.contains_key(sl) && lm.contains_key(mv[sl])) implies slot_val(cur, sl)
                == slot_val(*base, sl) by {
                if exists|j: int|
                    0 <= j < n && (#[trigger] m.pairs@[j]).0 == sl && lm.contains_key(
                        m.pairs@[j].1@,
                    ) {
                    let j = choose|j: int|
                        0 <= j < n && (#[trigger] m.pairs@[j]).0 == sl && lm.contains_key(
                            m.pairs@[j].1@,
                        );
                    lemma_slot_map_index(m.pairs@, j);
                }
            }
        }
    }
    Ok(cur)
}

/// Encodes a logical map into a fresh record body: slots whose mapped
/// property the input supplies take the supplied value, the rest are at
/// their defaults. Properties that no slot is mapped to are dropped.
pub fn encode(m: &Mapping, logical: &Vec<(String, Value)>) -> (r: Result<Slots, StoreError>)
    requires
        m.wf(),
        keys_unique(logical@),
    ensures
        match r {
            Ok(enc) => encode_ok(m@, map_view(logical@)) && encodes_fresh(
                m@,
                map_view(logical@),
                enc,
            ),
            Err(e) => e == StoreError::BadRequest && !encode_ok(m@, map_view(logical@)),
        },
{
    let base = empty_slots();
    let r = apply_slots(m, logical, &base);
    proof {
        if r is Ok {
            let enc = r->Ok_0;
            assert forall|sl: SlotId|
                !(m@.contains_key(sl) && map_view(logical@).contains_key(
                    m@[sl],
                )) implies is_default_val(#[trigger] slot_val(enc, sl), sl) by {
                assert(slot_val(enc, sl) == slot_val(base, sl));
            }
        }
    }
    r
}

/// Decodes a stored record into its logical map under a mapping: the five
/// system fields under their own names, then each mapped slot's value
/// under its property.
pub fn decode(m: &Mapping, rec: &Record) -> (r: Vec<(String, Value)>)
    requires
        m.wf(),
    ensures
        keys_unique(r@),
        decodes(m@, *rec, map_view(r@)),
{
    let ghost mv = m@;
    let mut out: Vec<(String, Value)> = Vec::new();
    upsert(&mut out, "id".to_owned(), Value::Num(rec.id as i64));
    upsert(&mut out, "parent_id".to_owned(), Value::Num(rec.parent_id as i64));
    upsert(&mut out, "sort".to_owned(), Value::Num(rec.sort as i64));
    upsert(&mut out, "gmt_create".to_owned(), Value::Num(rec.gmt_create));
    upsert(&mut out, "gmt_modified".to_owned(), Value::Num(rec.gmt_modified));
    proof {
        reveal_strlit("id");
        reveal_strlit("parent_id");
        reveal_strlit("sort");
        reveal_strlit("gmt_create");
        reveal_strlit("gmt_modified");
        assert("id"@.len() == 2 && "parent_id"@.len() == 9 && "sort"@.len() == 4
            && "gmt_create"@.len() == 10 && "gmt_modified"@.len() == 12);
        assert(map_view(out@)["id"@] == Value::Num(rec.id as i64));
        assert(map_view(out@)["parent_id"@] == Value::Num(rec.parent_id as i64));
        assert(map_view(out@)["sort"@] == Value::Num(rec.sort as i64));
        assert(map_view(out@)["gmt_create"@] == Value::Num(rec.gmt_create));
        assert(map_view(out@)["gmt_modified"@] == Value::Num(rec.gmt_modified));
    }
    let n = m.pairs.len();
    for k in 0..n
        invariant
            n == m.pairs@.len(),
            m.wf(),
            mv == m@,
            keys_unique(out@),
            forall|p: Seq<char>|
                #![trigger map_view(out@).contains_key(p)]
                map_view(out@).contains_key(p) <==> (is_system_property(p) || exists|j: int|
                    0 <= j < k && (#[trigger] m.pairs@[j]).1@ == p),
            map_view(out@)["id"@] == Value::Num(rec.id as i64),
            map_view(out@)["parent_id"@] == Value::Num(rec.parent_id as i64),
            map_view(out@)["sort"@] == Value::Num(rec.sort as i64),
            map_view(out@)["gmt_create"@] == Value::Num(rec.gmt_create),
            map_view(out@)["gmt_modified"@] == Value::Num(rec.gmt_modified),
            forall|j: int|
                0 <= j < k ==> map_view(out@)[(#[trigger] m.pairs@[j]).1@] == slot_val(
                    rec.slots,
                    m.pairs@[j].0,
                ),
    {
        let v = get_slot(&rec.slots, m.pairs[k].0);
        upsert(&mut out, m.pairs[k].1.clone(), v);
        proof {
            assert(!is_system_property(m.pairs@[k as int].1@));
            assert forall|j: int|
                0 <= j < k + 1 implies map_view(out@)[(#[trigger] m.pairs@[j]).1@] == slot_val(
                rec.slots,
                m.pairs@[j].0,
            ) by {
                if j < k {
                    assert(m.pairs@[j].1@ != m.pairs@[k as int].1@);
                }
            }
        }
    }
    proof {
        assert forall|p: Seq<char>|
            map_view(out@).contains_key(p) implies (is_system_property(p) || prop_mapped(
            mv,
            p,
        )) by {
            if !is_system_property(p) {
                let j = choose|j: int| 0 <= j < n && (#[trigger] m.pairs@[j]).1@ == p;
                lemma_slot_map_index(m.pairs@, j);
            }
        }
        assert forall|p: Seq<char>|
            (is_system_property(p) || prop_mapped(mv, p)) implies map_view(out@).contains_key(
            p,
        ) by {
            if !is_system_property(p) {
                let sl = choose|sl: SlotId| #[trigger] mv.contains_key(sl) && mv[sl] == p;
                lemma_slot_map_contains(m.pairs@, sl);
                let j = choose|j: int| 0 <= j < m.pairs@.len() && (#[trigger] m.pairs@[j]).0 == sl;
                lemma_slot_map_index(m.pairs@, j);
            }
        }
        assert forall|sl: SlotId| #[trigger]
            mv.contains_key(sl) implies map_view(out@)[mv[sl]] == slot_val(rec.slots, sl) by {
            lemma_slot_map_contains(m.pairs@, sl);
            let j = choose|j: int| 0 <= j < m.pairs@.len() && (#[trigger] m.pairs@[j]).0 == sl;
            lemma_slot_map_index(m.pairs@, j);
        }
    }
    out
}

/// Round trip: a logical value that is encoded under a mapping and decoded
/// back under the same mapping comes back unchanged, for every property
/// the mapping carries and the input supplies, whatever body the encoding
/// started from and whatever the record's other fields hold.
pub proof fn lemma_round_trip(
    mv: Map<SlotId, Seq<char>>,
    lm: Map<Seq<char>, Value>,
    base: Slots,
    rec: Record,
    dm: Map<Seq<char>, Value>,
    p: Seq<char>,
)
    requires
        encodes(mv, lm, base, rec.slots),
        decodes(mv, rec, dm),
        lm.contains_key(p),
        prop_mapped(mv, p),
    ensures
        dm.contains_key(p),
        dm[p] == lm[p],
{
    let sl = choose|sl: SlotId| #[trigger] mv.contains_key(sl) && mv[sl] == p;
    assert(slot_val(rec.slots, sl) == lm[p]);
    assert(dm[mv[sl]] == slot_val(rec.slots, sl));
}

/// Dropping a property that no slot is mapped to changes nothing about
/// encoding: the slot values it admits and the bodies it yields are those
/// of the input without that property.
pub proof fn lemma_unmapped_property_dropped(
    mv: Map<SlotId, Seq<char>>,
    lm: Map<Seq<char>, Value>,
    q: Seq<char>,
    base: Slots,
    enc: Slots,
)
    requires
        !prop_mapped(mv, q),
    ensures
        encode_ok(mv, lm) == encode_ok(mv, lm.remove(q)),
        encodes(mv, lm, base, enc) == encodes(mv, lm.remove(q), base, enc),
        encodes_fresh(mv, lm, enc) == encodes_fresh(mv, lm.remove(q), enc),
{
    assert forall|sl: SlotId| #[trigger] mv.contains_key(sl) implies mv[sl] != q by {
        assert(!(mv.contains_key(sl) && mv[sl] == q));
    }
    assert(encode_ok(mv, lm) == encode_ok(mv, lm.remove(q))) by {
        if encode_ok(mv, lm) {
            assert forall|sl: SlotId|
                mv.contains_key(sl) && lm.remove(q).contains_key(mv[sl]) implies fits(
                lm.remove(q)[mv[sl]],
                sl,
            ) by {}
        }
        if encode_ok(mv, lm.remove(q)) {
            assert forall|sl: SlotId|
                mv.contains_key(sl) && lm.contains_key(mv[sl]) implies fits(lm[mv[sl]], sl) by {}
        }
    }
    assert(encodes(mv, lm, base, enc) ==> encodes(mv, lm.remove(q), base, enc)) by {
        if encodes(mv, lm, base, enc) {
            assert forall|sl: SlotId|
                mv.contains_key(sl) && lm.remove(q).contains_key(mv[sl]) implies #[trigger]
            slot_val(enc, sl) == lm.remove(q)[mv[sl]] by {}
        }
    }
    assert(encodes(mv, lm.remove(q), base, enc) ==> encodes(mv, lm, base, enc)) by {
        if encodes(mv, lm.remove(q), base, enc) {
            assert forall|sl: SlotId|
                mv.contains_key(sl) && lm.contains_key(mv[sl]) implies #[trigger] slot_val(enc, sl)
                == lm[mv[sl]] by {}
        }
    }
    assert(encodes_fresh(mv, lm, enc) ==> encodes_fresh(mv, lm.remove(q), enc)) by {
        if encodes_fresh(mv, lm, enc) {
            assert forall|sl: SlotId|
                mv.contains_key(sl) && lm.remove(q).contains_key(mv[sl]) implies #[trigger]
            slot_val(enc, sl) == lm.remove(q)[mv[sl]] by {}
        }
    }
    assert(encodes_fresh(mv, lm.remove(q), enc) ==> encodes_fresh(mv, lm, enc)) by {
        if encodes_fresh(mv, lm.remove(q), enc) {
            assert forall|sl: SlotId|
                mv.contains_key(sl) && lm.contains_key(mv[sl]) implies #[trigger] slot_val(enc, sl)
                == lm[mv[sl]] by {}
        }
    }
}

/// Decoding never invents a property: a name that is neither a system
/// field nor mapped from any slot is absent from every decoded map.
pub proof fn lemma_decode_no_invention(
    mv: Map<SlotId, Seq<char>>,
    rec: Record,
    dm: Map<Seq<char>, Value>,
    q: Seq<char>,
)
    requires
        decodes(mv, rec, dm),
        !is_system_property(q),
        !prop_mapped(mv, q),
    ensures
        !dm.contains_key(q),
{
}

} // verus!
