//! Resolving a record-type code to its current property/slot mapping.
//!
//! The resolver walks every mapping definition stored for the code, in
//! ascending identifier order, and overlays them onto an initially empty
//! mapping. A later definition wins any collision, whether it reuses a
//! slot or a property name (the deterministic tie-break: the definition
//! with the highest identifier). Definitions that name an unknown column,
//! or that try to rebind a fixed system property name, are ignored: the
//! system fields are always presented under their own names and cannot be
//! remapped.

use vstd::prelude::*;

use crate::meta::{MappingDefinition, MetaStore};
use crate::slot::SlotId;

verus! {

/// Whether a property name is one of the fixed system fields, which every
/// record presents regardless of its mapping.
pub open spec fn is_system_property(p: Seq<char>) -> bool {
    ||| p == "id"@
    ||| p == "parent_id"@
    ||| p == "sort"@
    ||| p == "gmt_create"@
    ||| p == "gmt_modified"@
}

/// Decides whether a property name is a fixed system field.
pub fn system_property(p: &String) -> (r: bool)
    ensures
        r == is_system_property(p@),
{
    *p == "id".to_owned() || *p == "parent_id".to_owned() || *p == "sort".to_owned() || *p
        == "gmt_create".to_owned() || *p == "gmt_modified".to_owned()
}

/// The slot a physical column name denotes, if any.
pub open spec fn slot_of_column(name: Seq<char>) -> Option<SlotId> {
    if name == "varchar1"@ {
        Some(SlotId::Varchar1)
    } else if name == "varchar2"@ {
        Some(SlotId::Varchar2)
    } else if name == "varchar3"@ {
        Some(SlotId::Varchar3)
    } else if name == "varchar4"@ {
        Some(SlotId::Varchar4)
    } else if name == "varchar5"@ {
        Some(SlotId::Varchar5)
    } else if name == "text1"@ {
        Some(SlotId::Text1)
    } else if name == "text2"@ {
        Some(SlotId::Text2)
    } else if name == "text3"@ {
        Some(SlotId::Text3)
    } else if name == "decimal1"@ {
        Some(SlotId::Decimal1)
    } else if name == "decimal2"@ {
        Some(SlotId::Decimal2)
    } else if name == "decimal3"@ {
        Some(SlotId::Decimal3)
    } else if name == "datetime1"@ {
        Some(SlotId::Datetime1)
    } else if name == "datetime2"@ {
        Some(SlotId::Datetime2)
    } else if name == "datetime3"@ {
        Some(SlotId::Datetime3)
    } else {
        None
    }
}

/// Parses a physical column name into its slot.
pub fn parse_column(name: &String) -> (r: Option<SlotId>)
    ensures
        r == slot_of_column(name@),
{
    if *name == "varchar1".to_owned() {
        Some(SlotId::Varchar1)
    } else if *name == "varchar2".to_owned() {
        Some(SlotId::Varchar2)
    } else if *name == "varchar3".to_owned() {
        Some(SlotId::Varchar3)
    } else if *name == "varchar4".to_owned() {
        Some(SlotId::Varchar4)
    } else if *name == "varchar5".to_owned() {
        Some(SlotId::Varchar5)
    } else if *name == "text1".to_owned() {
        Some(SlotId::Text1)
    } else if *name == "text2".to_owned() {
        Some(SlotId::Text2)
    } else if *name == "text3".to_owned() {
        Some(SlotId::Text3)
    } else if *name == "decimal1".to_owned() {
        Some(SlotId::Decimal1)
    } else if *name == "decimal2".to_owned() {
        Some(SlotId::Decimal2)
    } else if *name == "decimal3".to_owned() {
        Some(SlotId::Decimal3)
    } else if *name == "datetime1".to_owned() {
        Some(SlotId::Datetime1)
    } else if *name == "datetime2".to_owned() {
        Some(SlotId::Datetime2)
    } else if *name == "datetime3".to_owned() {
        Some(SlotId::Datetime3)
    } else {
        None
    }
}

/// A resolved mapping: which logical property each slot presents.
///
/// Carried as slot/property pairs; its mathematical view is the finite map
/// from slot to property name. Well-formed mappings bind each slot at most
/// once, each property name at most once, and never a system name.
#[derive(Debug)]
pub struct Mapping {
    pub pairs: Vec<(SlotId, String)>,
}

/// The map that a pair list denotes; a later pair wins on a repeated slot.
pub open spec fn slot_map(pairs: Seq<(SlotId, String)>) -> Map<SlotId, Seq<char>>
    decreases pairs.len(),
{
    if pairs.len() == 0 {
        Map::empty()
    } else {
        slot_map(pairs.drop_last()).insert(pairs.last().0, pairs.last().1@)
    }
}

impl View for Mapping {
    type V = Map<SlotId, Seq<char>>;

    open spec fn view(&self) -> Map<SlotId, Seq<char>> {
        slot_map(self.pairs@)
    }
}

impl Mapping {
    /// Each slot bound at most once, each property name at most once, and
    /// no system name among the properties.
    pub open spec fn wf(self) -> bool {
        &&& forall|i: int, j: int|
            0 <= i < j < self.pairs@.len() ==> (#[trigger] self.pairs@[i]).0 != (
            #[trigger] self.pairs@[j]).0
        &&& forall|i: int, j: int|
            0 <= i < j < self.pairs@.len() ==> (#[trigger] self.pairs@[i]).1@ != (
            #[trigger] self.pairs@[j]).1@
        &&& forall|i: int| 0 <= i < self.pairs@.len() ==> !is_system_property(
            (#[trigger] self.pairs@[i]).1@,
        )
    }
}

/// Whether some slot presents the property name.
pub open spec fn prop_mapped(mv: Map<SlotId, Seq<char>>, p: Seq<char>) -> bool {
    exists|sl: SlotId| #[trigger] mv.contains_key(sl) && mv[sl] == p
}

/// A slot is in the map exactly when some pair carries it.
pub proof fn lemma_slot_map_contains(pairs: Seq<(SlotId, String)>, sl: SlotId)
    ensures
        slot_map(pairs).contains_key(sl) <==> exists|i: int|
            0 <= i < pairs.len() && (#[trigger] pairs[i]).0 == sl,
    decreases pairs.len(),
{
    if pairs.len() > 0 {
        lemma_slot_map_contains(pairs.drop_last(), sl);
        if pairs.last().0 == sl {
            assert(pairs[pairs.len() - 1].0 == sl);
        } else if slot_map(pairs).contains_key(sl) {
            let i = choose|i: int|
                0 <= i < pairs.drop_last().len() && (#[trigger] pairs.drop_last()[i]).0 == sl;
            assert(pairs[i].0 == sl);
        } else {
            assert forall|i: int| 0 <= i < pairs.len() implies (#[trigger] pairs[i]).0 != sl by {
                if i < pairs.len() - 1 {
                    assert(pairs.drop_last()[i] == pairs[i]);
                }
            }
        }
    }
}

/// With each slot bound once, the pair carrying a slot gives the map's
/// value there.
pub proof fn lemma_slot_map_index(pairs: Seq<(SlotId, String)>, i: int)
    requires
        forall|a: int, b: int|
            0 <= a < b < pairs.len() ==> (#[trigger] pairs[a]).0 != (#[trigger] pairs[b]).0,
        0 <= i < pairs.len(),
    ensures
        slot_map(pairs).contains_key(pairs[i].0),
        slot_map(pairs)[pairs[i].0] == pairs[i].1@,
    decreases pairs.len(),
{
    if i == pairs.len() - 1 {
    } else {
        assert(pairs.drop_last()[i] == pairs[i]);
        assert forall|a: int, b: int|
            0 <= a < b < pairs.drop_last().len() implies (#[trigger] pairs.drop_last()[a]).0 != (
        #[trigger] pairs.drop_last()[b]).0 by {
            assert(pairs.drop_last()[a] == pairs[a]);
            assert(pairs.drop_last()[b] == pairs[b]);
        }
        lemma_slot_map_index(pairs.drop_last(), i);
        assert(pairs[pairs.len() - 1].0 != pairs[i].0);
    }
}

/// The pairs whose slot and property both differ from the given ones.
pub open spec fn filter_pairs(
    pairs: Seq<(SlotId, String)>,
    sl: SlotId,
    p: Seq<char>,
) -> Seq<(SlotId, String)>
    decreases pairs.len(),
{
    if pairs.len() == 0 {
        Seq::empty()
    } else {
        let rest = filter_pairs(pairs.drop_last(), sl, p);
        if pairs.last().0 != sl && pairs.last().1@ != p {
            rest.push(pairs.last())
        } else {
            rest
        }
    }
}

/// The map restricted to slots that do not present the property name.
pub open spec fn drop_prop(mv: Map<SlotId, Seq<char>>, p: Seq<char>) -> Map<SlotId, Seq<char>> {
    Map::<SlotId, Seq<char>>::new(
        |sl: SlotId| mv.contains_key(sl) && mv[sl] != p,
        |sl: SlotId| mv[sl],
    )
}

/// Dropping the pairs that collide with a new binding, then appending it,
/// overlays the binding onto the map: the slot now presents the property,
/// and no other slot presents it.
pub proof fn lemma_slot_map_overlay(pairs: Seq<(SlotId, String)>, q: (SlotId, String))
    requires
        forall|a: int, b: int|
            0 <= a < b < pairs.len() ==> (#[trigger] pairs[a]).0 != (#[trigger] pairs[b]).0,
    ensures
        slot_map(filter_pairs(pairs, q.0, q.1@).push(q)) =~= drop_prop(slot_map(pairs), q.1@).insert(
            q.0,
            q.1@,
        ),
    decreases pairs.len(),
{
    let p = q.1@;
    let f = filter_pairs(pairs, q.0, p);
    assert(slot_map(f.push(q)) == slot_map(f).insert(q.0, p)) by {
        assert(f.push(q).drop_last() =~= f);
    }
    if pairs.len() == 0 {
        assert(slot_map(f).insert(q.0, p) =~= drop_prop(slot_map(pairs), p).insert(q.0, p));
    } else {
        let rest = pairs.drop_last();
        let last = pairs.last();
        assert forall|a: int, b: int|
            0 <= a < b < rest.len() implies (#[trigger] rest[a]).0 != (#[trigger] rest[b]).0 by {
            assert(rest[a] == pairs[a]);
            assert(rest[b] == pairs[b]);
        }
        lemma_slot_map_overlay(rest, q);
        let xf = filter_pairs(rest, q.0, p);
        assert(slot_map(xf.push(q)) == slot_map(xf).insert(q.0, p)) by {
            assert(xf.push(q).drop_last() =~= xf);
        }
        lemma_slot_map_contains(rest, last.0);
        assert(!slot_map(rest).contains_key(last.0)) by {
            assert forall|i: int| 0 <= i < rest.len() implies (#[trigger] rest[i]).0 != last.0 by {
                assert(rest[i] == pairs[i]);
                assert(pairs[pairs.len() - 1].0 == last.0);
            }
        }
        assert(slot_map(pairs) == slot_map(rest).insert(last.0, last.1@));
        if last.0 != q.0 && last.1@ != p {
            assert(f == xf.push(last));
            assert(slot_map(f) == slot_map(xf).insert(last.0, last.1@)) by {
                assert(xf.push(last).drop_last() =~= xf);
            }
            assert(slot_map(f).insert(q.0, p) =~= drop_prop(slot_map(pairs), p).insert(q.0, p))
                by {
                assert(drop_prop(slot_map(pairs), p) =~= drop_prop(slot_map(rest), p).insert(
                    last.0,
                    last.1@,
                ));
                assert(slot_map(xf).insert(last.0, last.1@).insert(q.0, p) =~= slot_map(xf).insert(
                    q.0,
                    p,
                ).insert(last.0, last.1@));
                assert(slot_map(xf).insert(q.0, p).insert(last.0, last.1@) == drop_prop(
                    slot_map(rest),
                    p,
                ).insert(q.0, p).insert(last.0, last.1@));
                assert(drop_prop(slot_map(rest), p).insert(q.0, p).insert(last.0, last.1@)
                    =~= drop_prop(slot_map(rest), p).insert(last.0, last.1@).insert(q.0, p));
            }
        } else {
            assert(f == xf);
            if last.1@ == p {
                assert(drop_prop(slot_map(pairs), p) =~= drop_prop(slot_map(rest), p));
            } else {
                assert(drop_prop(slot_map(pairs), p).insert(q.0, p) =~= drop_prop(
                    slot_map(rest),
                    p,
                ).insert(q.0, p));
            }
        }
    }
}

/// The mapping a sequence of definitions resolves to for a code: walk the
/// definitions in order, and overlay each one whose code matches, whose
/// column names a slot, and whose property is not a system name.
pub open spec fn resolve_spec(defs: Seq<MappingDefinition>, code: Seq<char>) -> Map<
    SlotId,
    Seq<char>,
>
    decreases defs.len(),
{
    if defs.len() == 0 {
        Map::empty()
    } else {
        let m0 = resolve_spec(defs.drop_last(), code);
        let d = defs.last();
        if d.code@ == code && !is_system_property(d.property@) {
            match slot_of_column(d.column_name@) {
                Some(sl) => drop_prop(m0, d.property@).insert(sl, d.property@),
                None => m0,
            }
        } else {
            m0
        }
    }
}

/// Resolves a code to its current mapping from the stored definitions.
///
/// Every definition stored for the code is considered (the lookup is not
/// paginated), so the mapping is a pure function of the store's contents
/// and the code.
pub fn resolve(meta: &MetaStore, code: &String) -> (m: Mapping)
    ensures
        m.wf(),
        m@ == resolve_spec(meta.rows@, code@),
{
    let mut m = Mapping { pairs: Vec::new() };
    let n = meta.rows.len();
    for i in 0..n
        invariant
            n == meta.rows@.len(),
            m.wf(),
            m@ == resolve_spec(meta.rows@.subrange(0, i as int), code@),
    {
        let d = &meta.rows[i];
        proof {
            assert(meta.rows@.subrange(0, i + 1).drop_last() =~= meta.rows@.subrange(0, i as int));
            assert(meta.rows@.subrange(0, i + 1).last() == meta.rows@[i as int]);
        }
        if d.code == *code {
            if !system_property(&d.property) {
                match parse_column(&d.column_name) {
                    Some(sl) => {
                        overlay(&mut m, sl, d.property.clone());
                    },
                    None => {},
                }
            }
        }
    }
    proof {
        assert(meta.rows@.subrange(0, n as int) =~= meta.rows@);
    }
    m
}

/// Overlays one binding onto a mapping: pairs that collide with it, on
/// either the slot or the property name, give way.
fn overlay(m: &mut Mapping, sl: SlotId, p: String)
    requires
        old(m).wf(),
        !is_system_property(p@),
    ensures
        final(m).wf(),
        final(m)@ == drop_prop(old(m)@, p@).insert(sl, p@),
{
    let mut kept: Vec<(SlotId, String)> = Vec::new();
    let n = m.pairs.len();
    for j in 0..n
        invariant
            n == m.pairs@.len(),
            m == old(m),
            old(m).wf(),
            kept@ == filter_pairs(m.pairs@.subrange(0, j as int), sl, p@),
            forall|a: int|
                0 <= a < kept@.len() ==> (#[trigger] kept@[a]).0 != sl && kept@[a].1@ != p@,
            forall|a: int|
                0 <= a < kept@.len() ==> exists|b: int|
                    0 <= b < j && #[trigger] kept@[a] == m.pairs@[b],
            forall|a: int, b: int|
                0 <= a < b < kept@.len() ==> (#[trigger] kept@[a]).0 != (#[trigger] kept@[b]).0
                    && kept@[a].1@ != kept@[b].1@,
            forall|a: int, b: int|
                0 <= a < kept@.len() && j <= b < n ==> (#[trigger] kept@[a]) != m.pairs@[b]
                    && kept@[a].0 != (#[trigger] m.pairs@[b]).0 && kept@[a].1@ != m.pairs@[b].1@,
            forall|a: int| 0 <= a < kept@.len() ==> !is_system_property(
                (#[trigger] kept@[a]).1@,
            ),
    {
        proof {
            assert(m.pairs@.subrange(0, j + 1).drop_last() =~= m.pairs@.subrange(0, j as int));
            assert(m.pairs@.subrange(0, j + 1).last() == m.pairs@[j as int]);
        }
        let pr = &m.pairs[j];
        if pr.0 != sl && pr.1 != p {
            kept.push((pr.0, pr.1.clone()));
        }
    }
    proof {
        assert(m.pairs@.subrange(0, n as int) =~= m.pairs@);
        lemma_slot_map_overlay(m.pairs@, (sl, p));
    }
    kept.push((sl, p));
    m.pairs = kept;
}

} // verus!
