//! Mapping-definition rows and the store that owns them.
//!
//! A mapping definition ties a logical property name to a physical slot
//! (column) within one record-type code. The store keeps its rows in
//! ascending identifier order, which is also insertion order, so listings
//! are stable and repeatable.

use vstd::prelude::*;

use crate::common::{paged, Pagination, StoreError};

verus! {

/// One property-to-slot correspondence row, scoped to a record-type code.
#[derive(Debug)]
pub struct MappingDefinition {
    /// System-assigned identifier, unique across the store.
    pub id: i32,
    /// The record-type code the definition belongs to.
    pub code: String,
    /// The logical property name exposed to clients.
    pub property: String,
    /// The physical slot (column) name the property is stored in.
    pub column_name: String,
    /// Free-form description.
    pub description: String,
    /// Client-chosen ordering hint; not used by the resolver.
    pub sort: i32,
    /// When the row was created (system-assigned).
    pub gmt_create: i64,
    /// When the row was last changed (system-assigned).
    pub gmt_modified: i64,
}

impl Clone for MappingDefinition {
    fn clone(&self) -> (r: Self)
        ensures
            r == *self,
    {
        MappingDefinition {
            id: self.id,
            code: self.code.clone(),
            property: self.property.clone(),
            column_name: self.column_name.clone(),
            description: self.description.clone(),
            sort: self.sort,
            gmt_create: self.gmt_create,
            gmt_modified: self.gmt_modified,
        }
    }
}

/// A partial change to a mapping definition: only the supplied fields change.
#[derive(Debug)]
pub struct ConfigMetaUpdate {
    pub code: Option<String>,
    pub property: Option<String>,
    pub column_name: Option<String>,
    pub description: Option<String>,
    pub sort: Option<i32>,
}

impl Default for ConfigMetaUpdate {
    /// An update that supplies nothing.
    fn default() -> (r: Self)
        ensures
            r.code is None,
            r.property is None,
            r.column_name is None,
            r.description is None,
            r.sort is None,
    {
        ConfigMetaUpdate { code: None, property: None, column_name: None, description: None, sort: None }
    }
}

/// Whether an update supplies at least one field.
pub open spec fn has_update_field(u: ConfigMetaUpdate) -> bool {
    u.code is Some || u.property is Some || u.column_name is Some || u.description is Some
        || u.sort is Some
}

/// An optional restriction of a listing to one record-type code.
#[derive(Debug)]
pub struct Filter {
    pub code: Option<String>,
}

impl Default for Filter {
    /// No restriction.
    fn default() -> (r: Self)
        ensures
            r.code is None,
    {
        Filter { code: None }
    }
}

/// Whether a row passes the listing filter.
pub open spec fn passes_filter(d: MappingDefinition, f: Filter) -> bool {
    match f.code {
        Some(c) => d.code@ == c@,
        None => true,
    }
}

/// The rows that pass the filter, in store order.
pub open spec fn filtered(s: Seq<MappingDefinition>, f: Filter) -> Seq<MappingDefinition>
    decreases s.len(),
{
    if s.len() == 0 {
        Seq::empty()
    } else {
        let rest = filtered(s.drop_last(), f);
        if passes_filter(s.last(), f) {
            rest.push(s.last())
        } else {
            rest
        }
    }
}

/// The rows whose identifier differs from `id`, in store order.
pub open spec fn removed_meta(s: Seq<MappingDefinition>, id: i32) -> Seq<MappingDefinition>
    decreases s.len(),
{
    if s.len() == 0 {
        Seq::empty()
    } else {
        let rest = removed_meta(s.drop_last(), id);
        if s.last().id == id {
            rest
        } else {
            rest.push(s.last())
        }
    }
}

/// Whether some row carries the identifier.
pub open spec fn contains_meta_id(s: Seq<MappingDefinition>, id: i32) -> bool {
    exists|i: int| 0 <= i < s.len() && (#[trigger] s[i]).id == id
}

/// The definition as it stands after a partial update: supplied fields take
/// the supplied values, the rest keep theirs; the modification timestamp is
/// system-assigned.
pub open spec fn merged(d: MappingDefinition, u: ConfigMetaUpdate, now: i64) -> MappingDefinition {
    MappingDefinition {
        id: d.id,
        code: match u.code {
            Some(c) => c,
            None => d.code,
        },
        property: match u.property {
            Some(p) => p,
            None => d.property,
        },
        column_name: match u.column_name {
            Some(c) => c,
            None => d.column_name,
        },
        description: match u.description {
            Some(t) => t,
            None => d.description,
        },
        sort: match u.sort {
            Some(n) => n,
            None => d.sort,
        },
        gmt_create: d.gmt_create,
        gmt_modified: now,
    }
}

/// Durable CRUD over mapping-definition rows.
pub struct MetaStore {
    /// The rows, in ascending identifier order (insertion order).
    pub rows: Vec<MappingDefinition>,
    /// The identifier the next created row will receive.
    pub next_id: i32,
}

impl MetaStore {
    /// Identifiers are positive, strictly increasing along the rows, and all
    /// below the next one to be assigned.
    pub open spec fn wf(self) -> bool {
        &&& 1 <= self.next_id
        &&& forall|i: int|
            0 <= i < self.rows@.len() ==> 1 <= (#[trigger] self.rows@[i]).id < self.next_id
        &&& forall|i: int, j: int|
            0 <= i < j < self.rows@.len() ==> (#[trigger] self.rows@[i]).id < (
            #[trigger] self.rows@[j]).id
    }

    /// An empty store; the first created row receives identifier 1.
    pub fn new() -> (r: Self)
        ensures
            r.wf(),
            r.rows@ == Seq::<MappingDefinition>::empty(),
            r.next_id == 1,
    {
        MetaStore { rows: Vec::new(), next_id: 1 }
    }

    /// Lists the rows that pass the filter, windowed by the pagination
    /// parameters, in store (ascending identifier) order.
    pub fn list(&self, filter: &Filter, page: &Pagination) -> (r: Vec<MappingDefinition>)
        ensures
            r@ == paged(filtered(self.rows@, *filter), page.spec_offset(), page.spec_limit()),
    {
        let mut all: Vec<MappingDefinition> = Vec::new();
        let n = self.rows.len();
        for i in 0..n
            invariant
                n == self.rows@.len(),
                all@ == filtered(self.rows@.subrange(0, i as int), *filter),
        {
            let row = &self.rows[i];
            let keep = match &filter.code {
                Some(c) => row.code == *c,
                None => true,
            };
            proof {
                assert(self.rows@.subrange(0, i + 1).drop_last() =~= self.rows@.subrange(0, i as int));
                assert(self.rows@.subrange(0, i + 1).last() == self.rows@[i as int]);
            }
            if keep {
                all.push(row.clone());
            }
        }
        proof {
            assert(self.rows@.subrange(0, n as int) =~= self.rows@);
        }
        window(all, page)
    }

    /// Returns the row carrying the identifier, if any.
    pub fn get_one(&self, id: i32) -> (r: Option<MappingDefinition>)
        ensures
            match r {
                Some(d) => d.id == id && contains_meta_id(self.rows@, id) && exists|i: int|
                    0 <= i < self.rows@.len() && #[trigger] self.rows@[i] == d,
                None => !contains_meta_id(self.rows@, id),
            },
    {
        let n = self.rows.len();
        for i in 0..n
            invariant
                n == self.rows@.len(),
                forall|j: int| 0 <= j < i ==> (#[trigger] self.rows@[j]).id != id,
        {
            if self.rows[i].id == id {
                return Some(self.rows[i].clone());
            }
        }
        None
    }

    /// Creates a row from the supplied fields; the identifier and both
    /// timestamps are system-assigned, whatever the input carries in them.
    pub fn create(&mut self, input: MappingDefinition, now: i64) -> (r: MappingDefinition)
        requires
            old(self).wf(),
            old(self).next_id < i32::MAX,
        ensures
            final(self).wf(),
            r == (MappingDefinition {
                id: old(self).next_id,
                gmt_create: now,
                gmt_modified: now,
                ..input
            }),
            final(self).rows@ == old(self).rows@.push(r),
            final(self).next_id == old(self).next_id + 1,
    {
        let row = MappingDefinition {
            id: self.next_id,
            code: input.code,
            property: input.property,
            column_name: input.column_name,
            description: input.description,
            sort: input.sort,
            gmt_create: now,
            gmt_modified: now,
        };
        let out = row.clone();
        self.rows.push(row);
        self.next_id = self.next_id + 1;
        out
    }

    /// Applies a partial update to the row carrying the identifier. An update
    /// that supplies no field is reported as not found, like a missing row.
    pub fn update(&mut self, id: i32, upd: ConfigMetaUpdate, now: i64) -> (r: Result<
        MappingDefinition,
        StoreError,
    >)
        requires
            old(self).wf(),
        ensures
            final(self).wf(),
            final(self).next_id == old(self).next_id,
            match r {
                Ok(d) => has_update_field(upd) && exists|i: int|
                    0 <= i < old(self).rows@.len() && (#[trigger] old(self).rows@[i]).id == id && d
                        == merged(old(self).rows@[i], upd, now) && final(self).rows@ == old(
                        self,
                    ).rows@.update(i, d),
                Err(e) => e == StoreError::NotFound && final(self).rows@ == old(self).rows@ && (
                !has_update_field(upd) || !contains_meta_id(old(self).rows@, id)),
            },
    {
        let supplies_field = upd.code.is_some() || upd.property.is_some()
            || upd.column_name.is_some() || upd.description.is_some() || upd.sort.is_some();
        if !supplies_field {
            return Err(StoreError::NotFound);
        }
        let n = self.rows.len();
        for i in 0..n
            invariant
                n == self.rows@.len(),
                self == old(self),
                old(self).wf(),
                has_update_field(upd),
                forall|j: int| 0 <= j < i ==> (#[trigger] self.rows@[j]).id != id,
        {
            if self.rows[i].id == id {
                let row = &self.rows[i];
                let updated = MappingDefinition {
                    id: row.id,
                    code: match &upd.code {
                        Some(c) => c.clone(),
                        None => row.code.clone(),
                    },
                    property: match &upd.property {
                        Some(p) => p.clone(),
                        None => row.property.clone(),
                    },
                    column_name: match &upd.column_name {
                        Some(c) => c.clone(),
                        None => row.column_name.clone(),
                    },
                    description: match &upd.description {
                        Some(t) => t.clone(),
                        None => row.description.clone(),
                    },
                    sort: match upd.sort {
                        Some(s) => s,
                        None => row.sort,
                    },
                    gmt_create: row.gmt_create,
                    gmt_modified: now,
                };
                let out = updated.clone();
                proof {
                    assert(out == merged(old(self).rows@[i as int], upd, now));
                }
                self.rows.set(i, updated);
                proof {
                    let oi = i as int;
                    let rows0 = old(self).rows@;
                    assert(self.rows@ == rows0.update(oi, out));
                    assert(forall|a: int|
                        0 <= a < self.rows@.len() ==> (#[trigger] self.rows@[a]).id == rows0[a].id);
                }
                return Ok(out);
            }
        }
        Err(StoreError::NotFound)
    }

    /// Removes the row carrying the identifier and reports how many rows went
    /// away: one if it existed, zero if not. Deleting a missing row is not an
    /// error.
    pub fn delete(&mut self, id: i32) -> (r: u64)
        requires
            old(self).wf(),
        ensures
            final(self).wf(),
            final(self).next_id == old(self).next_id,
            final(self).rows@ == removed_meta(old(self).rows@, id),
            r == if contains_meta_id(old(self).rows@, id) {
                1int
            } else {
                0int
            },
    {
        let mut kept: Vec<MappingDefinition> = Vec::new();
        let mut count: u64 = 0;
        let n = self.rows.len();
        for i in 0..n
            invariant
                n == self.rows@.len(),
                self == old(self),
                old(self).wf(),
                kept@ == removed_meta(self.rows@.subrange(0, i as int), id),
                count == if contains_meta_id(self.rows@.subrange(0, i as int), id) {
                    1int
                } else {
                    0int
                },
                forall|a: int|
                    0 <= a < kept@.len() ==> exists|b: int|
                        0 <= b < i && #[trigger] kept@[a] == self.rows@[b],
                forall|a: int, b: int|
                    0 <= a < b < kept@.len() ==> (#[trigger] kept@[a]).id < (#[trigger] kept@[b]).id,
                forall|a: int, j: int|
                    0 <= a < kept@.len() && i <= j < n ==> (#[trigger] kept@[a]).id < (
                    #[trigger] self.rows@[j]).id,
        {
            proof {
                assert(self.rows@.subrange(0, i + 1).drop_last() =~= self.rows@.subrange(
                    0,
                    i as int,
                ));
                assert(self.rows@.subrange(0, i + 1).last() == self.rows@[i as int]);
            }
            if self.rows[i].id == id {
                proof {
                    if contains_meta_id(self.rows@.subrange(0, i as int), id) {
                        let j = choose|j: int|
                            0 <= j < i && (#[trigger] self.rows@.subrange(0, i as int)[j]).id == id;
                        assert(self.rows@[j].id < self.rows@[i as int].id);
                    }
                }
                count = count + 1;
            } else {
                proof {
                    if contains_meta_id(self.rows@.subrange(0, i + 1), id)
                        && !contains_meta_id(self.rows@.subrange(0, i as int), id) {
                        let j = choose|j: int|
                            0 <= j <= i && (#[trigger] self.rows@.subrange(0, i + 1)[j]).id == id;
                        assert(self.rows@[j].id == id);
                    }
                }
                kept.push(self.rows[i].clone());
            }
        }
        proof {
            assert(self.rows@.subrange(0, n as int) =~= self.rows@);
        }
        self.rows = kept;
        count
    }
}

/// The window of `all` selected by the pagination parameters; rows are
/// handed out in their order in `all`.
fn window(all: Vec<MappingDefinition>, page: &Pagination) -> (r: Vec<MappingDefinition>)
    ensures
        r@ == paged(all@, page.spec_offset(), page.spec_limit()),
{
    let len = all.len();
    let off = page.offset_bound();
    let lim = page.limit_bound();
    let start = if off >= len {
        len
    } else {
        off
    };
    let end = if len - start < lim {
        len
    } else {
        start + lim
    };
    let mut out: Vec<MappingDefinition> = Vec::new();
    for j in start..end
        invariant
            start <= j <= end <= len,
            len == all@.len(),
            out@ == all@.subrange(start as int, j as int),
    {
        proof {
            assert(all@.subrange(start as int, j + 1).drop_last() =~= all@.subrange(
                start as int,
                j as int,
            ));
            assert(all@.subrange(start as int, j + 1).last() == all@[j as int]);
        }
        out.push(all[j].clone());
    }
    proof {
        assert(out@ =~= paged(all@, page.spec_offset(), page.spec_limit()));
    }
    out
}

} // verus!
