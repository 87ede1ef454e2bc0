//! Record rows and the store that owns them.
//!
//! Every operation first resolves the record-type code to its current
//! mapping (nothing is cached), then applies the codec, then acts on the
//! rows. The store keeps its rows in ascending identifier order, which is
//! also insertion order, so listings are stable and repeatable.

use vstd::prelude::*;

use crate::codec::{
    apply_slots, decode, decodes, encode, encode_ok, encodes, encodes_fresh,
};
use crate::common::{paged, Pagination, StoreError};
use crate::mapping::{resolve, resolve_spec};
use crate::meta::MetaStore;
use crate::slot::{SlotId, Slots};
use crate::value::{keys_unique, lookup, map_view, Value};

verus! {

/// One stored record row: the fixed system fields plus the slot body.
///
/// A record's logical shape is decided entirely by the mapping its
/// record-type code resolves to at read time; the slots are reused
/// storage, not schema.
#[derive(Debug)]
pub struct Record {
    /// System-assigned identifier, unique across the store.
    pub id: i32,
    /// The record-type code, fixed at creation.
    pub meta_code: String,
    /// Optional reference to another record's identifier; not validated.
    pub parent_id: i32,
    /// Client-chosen ordering hint.
    pub sort: i32,
    /// The fourteen generically typed slots.
    pub slots: Slots,
    /// When the row was created (system-assigned).
    pub gmt_create: i64,
    /// When the row was last changed (system-assigned).
    pub gmt_modified: i64,
}

impl Clone for Record {
    fn clone(&self) -> (r: Self)
        ensures
            r == *self,
    {
        Record {
            id: self.id,
            meta_code: self.meta_code.clone(),
            parent_id: self.parent_id,
            sort: self.sort,
            slots: self.slots.clone(),
            gmt_create: self.gmt_create,
            gmt_modified: self.gmt_modified,
        }
    }
}

/// The rows carrying the record-type code, in store order.
pub open spec fn filtered_items(s: Seq<Record>, code: Seq<char>) -> Seq<Record>
    decreases s.len(),
{
    if s.len() == 0 {
        Seq::empty()
    } else {
        let rest = filtered_items(s.drop_last(), code);
        if s.last().meta_code@ == code {
            rest.push(s.last())
        } else {
            rest
        }
    }
}

/// The rows that do not carry both the record-type code and the
/// identifier, in store order.
pub open spec fn removed_item(s: Seq<Record>, code: Seq<char>, id: i32) -> Seq<Record>
    decreases s.len(),
{
    if s.len() == 0 {
        Seq::empty()
    } else {
        let rest = removed_item(s.drop_last(), code, id);
        if s.last().id == id && s.last().meta_code@ == code {
            rest
        } else {
            rest.push(s.last())
        }
    }
}

/// Whether some row carries both the record-type code and the identifier.
pub open spec fn contains_item(s: Seq<Record>, code: Seq<char>, id: i32) -> bool {
    exists|i: int|
        0 <= i < s.len() && (#[trigger] s[i]).id == id && s[i].meta_code@ == code
}

/// Whether a number fits the identifier fields' 32-bit range.
pub open spec fn i32_in_range(n: i64) -> bool {
    -2147483648 <= n <= 2147483647
}

/// Whether the logical map either leaves the named numeric system field
/// alone or supplies a number in range for it.
pub open spec fn num_field_ok(lm: Map<Seq<char>, Value>, name: Seq<char>) -> bool {
    lm.contains_key(name) ==> (lm[name] matches Value::Num(n) && i32_in_range(n))
}

/// The value the named numeric system field takes: the supplied number if
/// one is supplied, the fallback otherwise.
pub open spec fn i32_field(lm: Map<Seq<char>, Value>, name: Seq<char>, dflt: i32) -> i32 {
    if lm.contains_key(name) {
        match lm[name] {
            Value::Num(n) => if i32_in_range(n) {
                n as i32
            } else {
                dflt
            },
            _ => dflt,
        }
    } else {
        dflt
    }
}

/// The record a creation yields: identifier, code and both timestamps are
/// system-assigned; parent reference and sort come from the logical map or
/// default to zero; the slots are encoded fresh from the logical map.
pub open spec fn created_record(
    mv: Map<SlotId, Seq<char>>,
    lm: Map<Seq<char>, Value>,
    rec: Record,
    id: i32,
    code: Seq<char>,
    now: i64,
) -> bool {
    &&& rec.id == id
    &&& rec.meta_code@ == code
    &&& rec.parent_id == i32_field(lm, "parent_id"@, 0)
    &&& rec.sort == i32_field(lm, "sort"@, 0)
    &&& encodes_fresh(mv, lm, rec.slots)
    &&& rec.gmt_create == now
    &&& rec.gmt_modified == now
}

/// The record a partial update yields: identifier, code and creation time
/// stay; parent reference and sort change only if supplied; slots whose
/// mapped property is supplied take the supplied value and the rest keep
/// theirs; the modification time is system-assigned.
pub open spec fn updated_record(
    mv: Map<SlotId, Seq<char>>,
    lm: Map<Seq<char>, Value>,
    before: Record,
    after: Record,
    now: i64,
) -> bool {
    &&& after.id == before.id
    &&& after.meta_code == before.meta_code
    &&& after.parent_id == i32_field(lm, "parent_id"@, before.parent_id)
    &&& after.sort == i32_field(lm, "sort"@, before.sort)
    &&& encodes(mv, lm, before.slots, after.slots)
    &&& after.gmt_create == before.gmt_create
    &&& after.gmt_modified == now
}

/// Reads the named numeric system field out of a logical map: the
/// fallback when absent, the number when supplied in range, refused
/// otherwise.
fn read_i32_field(logical: &Vec<(String, Value)>, key: &String, dflt: i32) -> (r: Result<
    i32,
    StoreError,
>)
    requires
        keys_unique(logical@),
    ensures
        match r {
            Ok(v) => num_field_ok(map_view(logical@), key@) && v == i32_field(
                map_view(logical@),
                key@,
                dflt,
            ),
            Err(e) => e == StoreError::BadRequest && !num_field_ok(map_view(logical@), key@),
        },
{
    match lookup(logical, key) {
        None => Ok(dflt),
        Some(Value::Num(n)) => {
            if -2147483648i64 <= n && n <= 2147483647i64 {
                Ok(n as i32)
            } else {
                Err(StoreError::BadRequest)
            }
        },
        Some(_) => Err(StoreError::BadRequest),
    }
}

/// Durable CRUD over record rows, scoped by record-type code.
pub struct ItemStore {
    /// The rows, in ascending identifier order (insertion order).
    pub rows: Vec<Record>,
    /// The identifier the next created row will receive.
    pub next_id: i32,
}

impl ItemStore {
    /// Identifiers are positive, strictly increasing along the rows, and
    /// all below the next one to be assigned.
    pub open spec fn wf(self) -> bool {
        &&& 1 <= self.next_id
        &&& forall|i: int|
            0 <= i < self.rows@.len() ==> 1 <= (#[trigger] self.rows@[i]).id < self.next_id
        &&& forall|i: int, j: int|
            0 <= i < j < self.rows@.len() ==> (#[trigger] self.rows@[i]).id < (
            #[trigger] self.rows@[j]).id
    }

    /// An empty store; the first created record receives identifier 1.
    pub fn new() -> (r: Self)
        ensures
            r.wf(),
            r.rows@ == Seq::<Record>::empty(),
            r.next_id == 1,
    {
        ItemStore { rows: Vec::new(), next_id: 1 }
    }

    /// Lists the records carrying the code, windowed by the pagination
    /// parameters, each decoded under the code's current mapping.
    pub fn list(&self, meta: &MetaStore, meta_code: &String, page: &Pagination) -> (r: Vec<
        Vec<(String, Value)>,
    >)
        ensures
            ({
                let mv = resolve_spec(meta.rows@, meta_code@);
                let sel = paged(
                    filtered_items(self.rows@, meta_code@),
                    page.spec_offset(),
                    page.spec_limit(),
                );
                &&& r@.len() == sel.len()
                &&& forall|j: int|
                    0 <= j < sel.len() ==> keys_unique((#[trigger] r@[j])@) && decodes(
                        mv,
                        sel[j],
                        map_view(r@[j]@),
                    )
            }),
    {
        let ghost mv = resolve_spec(meta.rows@, meta_code@);
        let m = resolve(meta, meta_code);
        let mut all: Vec<Record> = Vec::new();
        let n = self.rows.len();
        for i in 0..n
            invariant
                n == self.rows@.len(),
                all@ == filtered_items(self.rows@.subrange(0, i as int), meta_code@),
        {
            proof {
                assert(self.rows@.subrange(0, i + 1).drop_last() =~= self.rows@.subrange(
                    0,
                    i as int,
                ));
                assert(self.rows@.subrange(0, i + 1).last() == self.rows@[i as int]);
            }
            if self.rows[i].meta_code == *meta_code {
                all.push(self.rows[i].clone());
            }
        }
        proof {
            assert(self.rows@.subrange(0, n as int) =~= self.rows@);
        }
        let sel = window_items(all, page);
        let ghost selg = sel@;
        let mut out: Vec<Vec<(String, Value)>> = Vec::new();
        let k = sel.len();
        for j in 0..k
            invariant
                k == sel@.len(),
                sel@ == selg,
                m.wf(),
                m@ == mv,
                out@.len() == j,
                forall|a: int|
                    0 <= a < j ==> keys_unique((#[trigger] out@[a])@) && decodes(
                        mv,
                        selg[a],
                        map_view(out@[a]@),
                    ),
        {
            out.push(decode(&m, &sel[j]));
        }
        out
    }

    /// Returns the record carrying the identifier under the code, decoded
    /// under the code's current mapping; nothing when no row matches both.
    pub fn get_one(&self, meta: &MetaStore, meta_code: &String, id: i32) -> (r: Option<
        Vec<(String, Value)>,
    >)
        requires
            self.wf(),
        ensures
            ({
                let mv = resolve_spec(meta.rows@, meta_code@);
                match r {
                    Some(pm) => keys_unique(pm@) && exists|i: int|
                        0 <= i < self.rows@.len() && (#[trigger] self.rows@[i]).id == id
                            && self.rows@[i].meta_code@ == meta_code@ && decodes(
                            mv,
                            self.rows@[i],
                            map_view(pm@),
                        ),
                    None => !contains_item(self.rows@, meta_code@, id),
                }
            }),
    {
        let m = resolve(meta, meta_code);
        let n = self.rows.len();
        for i in 0..n
            invariant
                n == self.rows@.len(),
                m.wf(),
                m@ == resolve_spec(meta.rows@, meta_code@),
                forall|j: int|
                    0 <= j < i ==> !((#[trigger] self.rows@[j]).id == id
                        && self.rows@[j].meta_code@ == meta_code@),
        {
            if self.rows[i].id == id && self.rows[i].meta_code == *meta_code {
                return Some(decode(&m, &self.rows[i]));
            }
        }
        None
    }

    /// Creates a record under the code from a logical map and returns the
    /// system-assigned identifier. The identifier, the code and both
    /// timestamps are system-assigned whatever the map supplies for them;
    /// parent reference and sort come from the map or default to zero. A
    /// value that does not fit the slot its property is mapped to, or an
    /// out-of-range parent reference or sort, refuses the whole request
    /// and stores nothing.
    pub fn create(
        &mut self,
        meta: &MetaStore,
        meta_code: &String,
        logical: &Vec<(String, Value)>,
        now: i64,
    ) -> (r: Result<i32, StoreError>)
        requires
            old(self).wf(),
            keys_unique(logical@),
            old(self).next_id < i32::MAX,
        ensures
            final(self).wf(),
            ({
                let mv = resolve_spec(meta.rows@, meta_code@);
                let lm = map_view(logical@);
                match r {
                    Ok(id) => id == old(self).next_id && final(self).next_id == old(self).next_id
                        + 1 && encode_ok(mv, lm) && num_field_ok(lm, "parent_id"@) && num_field_ok(
                        lm,
                        "sort"@,
                    ) && exists|rec: Record| #![auto]
                        final(self).rows@ == old(self).rows@.push(rec) && created_record(
                            mv,
                            lm,
                            rec,
                            old(self).next_id,
                            meta_code@,
                            now,
                        ),
                    Err(e) => e == StoreError::BadRequest && *final(self) == *old(self) && !(
                    encode_ok(mv, lm) && num_field_ok(lm, "parent_id"@) && num_field_ok(
                        lm,
                        "sort"@,
                    )),
                }
            }),
    {
        let m = resolve(meta, meta_code);
        let slots = match encode(&m, logical) {
            Ok(s2) => s2,
            Err(e) => {
                return Err(e);
            },
        };
        let parent_id = match read_i32_field(logical, &"parent_id".to_owned(), 0) {
            Ok(v) => v,
            Err(e) => {
                return Err(e);
            },
        };
        let sort = match read_i32_field(logical, &"sort".to_owned(), 0) {
            Ok(v) => v,
            Err(e) => {
                return Err(e);
            },
        };
        let new_id = self.next_id;
        let rec = Record {
            id: new_id,
            meta_code: meta_code.clone(),
            parent_id,
            sort,
            slots,
            gmt_create: now,
            gmt_modified: now,
        };
        let ghost recg = rec;
        self.rows.push(rec);
        self.next_id = self.next_id + 1;
        proof {
            assert(final(self).rows@ == old(self).rows@.push(recg));
            assert(created_record(
                resolve_spec(meta.rows@, meta_code@),
                map_view(logical@),
                recg,
                old(self).next_id,
                meta_code@,
                now,
            ));
        }
        Ok(new_id)
    }

    /// Applies a partial update to the record carrying the identifier
    /// under the code and returns it decoded under the code's current
    /// mapping. Only supplied properties change; the identifier, the code
    /// and the creation time never do. A value that does not fit its slot,
    /// or an out-of-range parent reference or sort, refuses the whole
    /// request and stores nothing.
    pub fn update(
        &mut self,
        meta: &MetaStore,
        meta_code: &String,
        id: i32,
        logical: &Vec<(String, Value)>,
        now: i64,
    ) -> (r: Result<Vec<(String, Value)>, StoreError>)
        requires
            old(self).wf(),
            keys_unique(logical@),
        ensures
            final(self).wf(),
            final(self).next_id == old(self).next_id,
            ({
                let mv = resolve_spec(meta.rows@, meta_code@);
                let lm = map_view(logical@);
                match r {
                    Ok(pm) => keys_unique(pm@) && encode_ok(mv, lm) && num_field_ok(
                        lm,
                        "parent_id"@,
                    ) && num_field_ok(lm, "sort"@) && exists|i: int, rec: Record| #![auto]
                        0 <= i < old(self).rows@.len() && old(self).rows@[i].id == id && old(
                            self,
                        ).rows@[i].meta_code@ == meta_code@ && updated_record(
                            mv,
                            lm,
                            old(self).rows@[i],
                            rec,
                            now,
                        ) && final(self).rows@ == old(self).rows@.update(i, rec) && decodes(
                            mv,
                            rec,
                            map_view(pm@),
                        ),
                    Err(e) => *final(self) == *old(self) && ((e == StoreError::NotFound
                        && !contains_item(old(self).rows@, meta_code@, id)) || (e
                        == StoreError::BadRequest && contains_item(old(self).rows@, meta_code@, id)
                        && !(encode_ok(mv, lm) && num_field_ok(lm, "parent_id"@) && num_field_ok(
                        lm,
                        "sort"@,
                    )))),
                }
            }),
    {
        let ghost mv = resolve_spec(meta.rows@, meta_code@);
        let ghost lm = map_view(logical@);
        let m = resolve(meta, meta_code);
        let n = self.rows.len();
        for i in 0..n
            invariant
                n == self.rows@.len(),
                self == old(self),
                old(self).wf(),
                keys_unique(logical@),
                m.wf(),
                m@ == mv,
                mv == resolve_spec(meta.rows@, meta_code@),
                lm == map_view(logical@),
                forall|j: int|
                    0 <= j < i ==> !((#[trigger] self.rows@[j]).id == id
                        && self.rows@[j].meta_code@ == meta_code@),
        {
            if self.rows[i].id == id && self.rows[i].meta_code == *meta_code {
                let before = self.rows[i].clone();
                let slots = match apply_slots(&m, logical, &before.slots) {
                    Ok(s2) => s2,
                    Err(e) => {
                        return Err(e);
                    },
                };
                let parent_id = match read_i32_field(
                    logical,
                    &"parent_id".to_owned(),
                    before.parent_id,
                ) {
                    Ok(v) => v,
                    Err(e) => {
                        return Err(e);
                    },
                };
                let sort = match read_i32_field(logical, &"sort".to_owned(), before.sort) {
                    Ok(v) => v,
                    Err(e) => {
                        return Err(e);
                    },
                };
                let rec = Record {
                    id: before.id,
                    meta_code: before.meta_code.clone(),
                    parent_id,
                    sort,
                    slots,
                    gmt_create: before.gmt_create,
                    gmt_modified: now,
                };
                let ghost recg = rec;
                let pm = decode(&m, &rec);
                self.rows.set(i, rec);
                proof {
                    let oi = i as int;
                    assert(updated_record(mv, lm, old(self).rows@[oi], recg, now));
                    assert(final(self).rows@ == old(self).rows@.update(oi, recg));
                    assert(forall|a: int|
                        0 <= a < self.rows@.len() ==> (#[trigger] self.rows@[a]).id == old(
                            self,
                        ).rows@[a].id);
                }
                return Ok(pm);
            }
        }
        Err(StoreError::NotFound)
    }

    /// Removes the record carrying the identifier under the code and
    /// reports how many rows went away: one if it existed, zero if not.
    /// Deleting a missing record is not an error.
    pub fn delete(&mut self, meta_code: &String, id: i32) -> (r: u64)
        requires
            old(self).wf(),
        ensures
            final(self).wf(),
            final(self).next_id == old(self).next_id,
            final(self).rows@ == removed_item(old(self).rows@, meta_code@, id),
            r == if contains_item(old(self).rows@, meta_code@, id) {
                1int
            } else {
                0int
            },
    {
        let mut kept: Vec<Record> = Vec::new();
        let mut count: u64 = 0;
        let n = self.rows.len();
        for i in 0..n
            invariant
                n == self.rows@.len(),
                self == old(self),
                old(self).wf(),
                kept@ == removed_item(self.rows@.subrange(0, i as int), meta_code@, id),
                count == if contains_item(self.rows@.subrange(0, i as int), meta_code@, id) {
                    1int
                } else {
                    0int
                },
                forall|a: int|
                    0 <= a < kept@.len() ==> exists|b: int|
                        0 <= b < i && #[trigger] kept@[a] == self.rows@[b],
                forall|a: int, b: int|
                    0 <= a < b < kept@.len() ==> (#[trigger] kept@[a]).id < (#[trigger] kept@[b]).id,
                forall|a: int, j: int|
                    0 <= a < kept@.len() && i <= j < n ==> (#[trigger] kept@[a]).id < (
                    #[trigger] self.rows@[j]).id,
        {
            proof {
                assert(self.rows@.subrange(0, i + 1).drop_last() =~= self.rows@.subrange(
                    0,
                    i as int,
                ));
                assert(self.rows@.subrange(0, i + 1).last() == self.rows@[i as int]);
            }
            if self.rows[i].id == id && self.rows[i].meta_code == *meta_code {
                proof {
                    if contains_item(self.rows@.subrange(0, i as int), meta_code@, id) {
                        let j = choose|j: int|
                            0 <= j < i && (#[trigger] self.rows@.subrange(0, i as int)[j]).id == id
                                && self.rows@.subrange(0, i as int)[j].meta_code@ == meta_code@;
                        assert(self.rows@[j].id < self.rows@[i as int].id);
                    }
                }
                count = count + 1;
            } else {
                proof {
                    if contains_item(self.rows@.subrange(0, i + 1), meta_code@, id)
                        && !contains_item(self.rows@.subrange(0, i as int), meta_code@, id) {
                        let j = choose|j: int|
                            0 <= j <= i && (#[trigger] self.rows@.subrange(0, i + 1)[j]).id == id
                                && self.rows@.subrange(0, i + 1)[j].meta_code@ == meta_code@;
                        assert(self.rows@[j].id == id && self.rows@[j].meta_code@ == meta_code@);
                    }
                }
                kept.push(self.rows[i].clone());
            }
        }
        proof {
            assert(self.rows@.subrange(0, n as int) =~= self.rows@);
        }
        self.rows = kept;
        count
    }
}

/// The window of `all` selected by the pagination parameters; rows are
/// handed out in their order in `all`.
fn window_items(all: Vec<Record>, page: &Pagination) -> (r: Vec<Record>)
    ensures
        r@ == paged(all@, page.spec_offset(), page.spec_limit()),
{
    let len = all.len();
    let off = page.offset_bound();
    let lim = page.limit_bound();
    let start = if off >= len {
        len
    } else {
        off
    };
    let end = if len - start < lim {
        len
    } else {
        start + lim
    };
    let mut out: Vec<Record> = Vec::new();
    for j in start..end
        invariant
            start <= j <= end <= len,
            len == all@.len(),
            out@ == all@.subrange(start as int, j as int),
    {
        proof {
            assert(all@.subrange(start as int, j + 1).drop_last() =~= all@.subrange(
                start as int,
                j as int,
            ));
            assert(all@.subrange(start as int, j + 1).last() == all@[j as int]);
        }
        out.push(all[j].clone());
    }
    proof {
        assert(out@ =~= paged(all@, page.spec_offset(), page.spec_limit()));
    }
    out
}

/// Deleting is idempotent: removing a record-type code and identifier
/// leaves rows that no longer carry the pair, so removing the same pair
/// again changes nothing — a second delete affects zero rows.
pub proof fn lemma_delete_idempotent(s: Seq<Record>, code: Seq<char>, id: i32)
    ensures
        !contains_item(removed_item(s, code, id), code, id),
        removed_item(removed_item(s, code, id), code, id) =~= removed_item(s, code, id),
    decreases s.len(),
{
    if s.len() > 0 {
        let rest = s.drop_last();
        let last = s.last();
        lemma_delete_idempotent(rest, code, id);
        if last.id == id && last.meta_code@ == code {
            assert(removed_item(s, code, id) == removed_item(rest, code, id));
        } else {
            let r0 = removed_item(rest, code, id);
            assert(removed_item(s, code, id) == r0.push(last));
            assert(!contains_item(r0.push(last), code, id)) by {
                if contains_item(r0.push(last), code, id) {
                    let j = choose|j: int|
                        0 <= j < r0.push(last).len() && (#[trigger] r0.push(last)[j]).id == id
                            && r0.push(last)[j].meta_code@ == code;
                    if j < r0.len() {
                        assert(r0[j].id == id && r0[j].meta_code@ == code);
                    }
                }
            }
            assert(removed_item(r0.push(last), code, id) =~= removed_item(r0, code, id).push(last))
                by {
                assert(r0.push(last).drop_last() =~= r0);
            }
            assert(removed_item(r0, code, id) =~= r0) by {
                lemma_removed_item_no_match(r0, code, id);
            }
        }
    }
}

/// Every row of a filtered listing comes from the store.
proof fn lemma_filtered_items_member(s: Seq<Record>, code: Seq<char>, a: int)
    requires
        0 <= a < filtered_items(s, code).len(),
    ensures
        exists|b: int| 0 <= b < s.len() && filtered_items(s, code)[a] == #[trigger] s[b],
    decreases s.len(),
{
    let f = filtered_items(s, code);
    let rest = s.drop_last();
    let fr = filtered_items(rest, code);
    if a < fr.len() {
        lemma_filtered_items_member(rest, code, a);
        let b = choose|b: int| 0 <= b < rest.len() && fr[a] == #[trigger] rest[b];
        assert(f[a] == s[b]);
    } else {
        assert(f[a] == s[s.len() - 1]);
    }
}

/// Filtering by code keeps the rows in ascending identifier order.
proof fn lemma_filtered_items_sorted(s: Seq<Record>, code: Seq<char>)
    requires
        forall|i: int, j: int|
            0 <= i < j < s.len() ==> (#[trigger] s[i]).id < (#[trigger] s[j]).id,
    ensures
        forall|i: int, j: int|
            0 <= i < j < filtered_items(s, code).len() ==> (#[trigger] filtered_items(s, code)[i]).id
                < (#[trigger] filtered_items(s, code)[j]).id,
    decreases s.len(),
{
    if s.len() > 0 {
        let rest = s.drop_last();
        let last = s.last();
        assert forall|i: int, j: int|
            0 <= i < j < rest.len() implies (#[trigger] rest[i]).id < (#[trigger] rest[j]).id by {
            assert(rest[i] == s[i]);
            assert(rest[j] == s[j]);
        }
        lemma_filtered_items_sorted(rest, code);
        let f = filtered_items(s, code);
        let fr = filtered_items(rest, code);
        assert forall|i: int, j: int|
            0 <= i < j < f.len() implies (#[trigger] f[i]).id < (#[trigger] f[j]).id by {
            if j < fr.len() {
                assert(f[i] == fr[i] && f[j] == fr[j]);
            } else {
                lemma_filtered_items_member(rest, code, i);
                let b = choose|b: int| 0 <= b < rest.len() && fr[i] == #[trigger] rest[b];
                assert(rest[b].id < last.id);
            }
        }
    }
}

/// Listings are ordered and repeatable: whatever the window, the records a
/// listing hands out carry strictly increasing identifiers, in the order
/// they were created.
pub proof fn lemma_listing_ordered(s: Seq<Record>, code: Seq<char>, offset: int, limit: int)
    requires
        forall|i: int, j: int|
            0 <= i < j < s.len() ==> (#[trigger] s[i]).id < (#[trigger] s[j]).id,
        0 <= offset,
        0 <= limit,
    ensures
        ({
            let sel = paged(filtered_items(s, code), offset, limit);
            forall|i: int, j: int|
                0 <= i < j < sel.len() ==> (#[trigger] sel[i]).id < (#[trigger] sel[j]).id
        }),
{
    lemma_filtered_items_sorted(s, code);
    let f = filtered_items(s, code);
    let sel = paged(f, offset, limit);
    assert forall|i: int, j: int|
        0 <= i < j < sel.len() implies (#[trigger] sel[i]).id < (#[trigger] sel[j]).id by {
        assert(sel[i] == f[offset + i]);
        assert(sel[j] == f[offset + j]);
    }
}

/// Removing a pair that no row carries changes nothing.
proof fn lemma_removed_item_no_match(s: Seq<Record>, code: Seq<char>, id: i32)
    requires
        !contains_item(s, code, id),
    ensures
        removed_item(s, code, id) =~= s,
    decreases s.len(),
{
    if s.len() > 0 {
        let rest = s.drop_last();
        assert(!contains_item(rest, code, id)) by {
            if contains_item(rest, code, id) {
                let j = choose|j: int|
                    0 <= j < rest.len() && (#[trigger] rest[j]).id == id && rest[j].meta_code@
                        == code;
                assert(s[j].id == id && s[j].meta_code@ == code);
            }
        }
        lemma_removed_item_no_match(rest, code, id);
        assert(s[s.len() - 1].id != id || s[s.len() - 1].meta_code@ != code);
    }
}

} // verus!
