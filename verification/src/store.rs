//! An in-memory syncable store for one entity kind.
//!
//! Rows are never physically removed by the sync path: a soft delete only
//! stamps the row's deletion marker, and every lookup except the raw row
//! accessors sees live rows only.  External ids are unique among live rows;
//! the store enforces that as the uniqueness constraint on create.
//!
//! Contracts speak of the store's mathematical model: the sequence of
//! [`RowModel`] values behind [`EntityStore::models`].
use vstd::prelude::*;

use crate::hash::fields_view;

verus! {

/// Why a store write was refused.
#[derive(Debug)]
pub enum StoreError {
    /// A live row already carries this external id.
    UniqueViolation,
}

/// One persisted record of an entity kind.
///
/// `fields` holds the kind's semantic fields in the kind's fixed order;
/// `content_hash` is their fingerprint.  `aux` is a kind-specific payload
/// that is persisted but not fingerprinted (a resource's type tag, an
/// annotation's boundary text).
pub struct Row {
    pub id: i32,
    pub parent: Option<i32>,
    pub external_id: Option<String>,
    pub content_hash: Option<String>,
    pub fields: Vec<Option<String>>,
    pub aux: Option<String>,
    pub created_at: String,
    pub updated_at: String,
    pub deleted_at: Option<String>,
}

/// The mathematical content of a row.
pub ghost struct RowModel {
    pub id: i32,
    pub parent: Option<i32>,
    pub external_id: Option<Seq<char>>,
    pub content_hash: Option<Seq<char>>,
    pub fields: Seq<Option<Seq<char>>>,
    pub aux: Option<Seq<char>>,
    pub created_at: Seq<char>,
    pub updated_at: Seq<char>,
    pub deleted_at: Option<Seq<char>>,
}

/// The view of an optional owned string.
pub open spec fn opt_view(s: Option<String>) -> Option<Seq<char>> {
    match s {
        Some(x) => Some(x@),
        None => None,
    }
}

impl View for Row {
    type V = RowModel;

    open spec fn view(&self) -> RowModel {
        RowModel {
            id: self.id,
            parent: self.parent,
            external_id: opt_view(self.external_id),
            content_hash: opt_view(self.content_hash),
            fields: fields_view(self.fields@),
            aux: opt_view(self.aux),
            created_at: self.created_at@,
            updated_at: self.updated_at@,
            deleted_at: opt_view(self.deleted_at),
        }
    }
}

/// A row that a live lookup may see.
pub open spec fn is_live(m: RowModel) -> bool {
    m.deleted_at is None
}

/// A live row carrying exactly this external id.
pub open spec fn row_live_eid(m: RowModel, eid: Seq<char>) -> bool {
    is_live(m) && m.external_id == Some(eid)
}

/// A live row carrying exactly this id.
pub open spec fn row_live_id(m: RowModel, id: i32) -> bool {
    is_live(m) && m.id == id
}

/// A live row whose first semantic field is exactly this value.
pub open spec fn row_live_first_field(m: RowModel, value: Seq<char>) -> bool {
    is_live(m) && m.fields.len() > 0 && m.fields[0] == Some(value)
}

/// The index of the first live row whose first semantic field is `value`.
pub open spec fn first_live_title(rows: Seq<RowModel>, value: Seq<char>) -> Option<int>
    decreases rows.len(),
{
    if rows.len() == 0 {
        None
    } else if row_live_first_field(rows[0], value) {
        Some(0)
    } else {
        match first_live_title(rows.drop_first(), value) {
            Some(i) => Some(i + 1),
            None => None,
        }
    }
}

/// What the first-match index means, spelled out per index.
pub proof fn lemma_first_live_title(rows: Seq<RowModel>, value: Seq<char>)
    ensures
        match first_live_title(rows, value) {
            Some(i) => 0 <= i < rows.len() && row_live_first_field(rows[i], value) && forall|
                j: int,
            | 0 <= j < i ==> !row_live_first_field(#[trigger] rows[j], value),
            None => forall|j: int|
                0 <= j < rows.len() ==> !row_live_first_field(#[trigger] rows[j], value),
        },
    decreases rows.len(),
{
    if rows.len() > 0 {
        lemma_first_live_title(rows.drop_first(), value);
        if !row_live_first_field(rows[0], value) {
            assert(forall|j: int|
                0 <= j < rows.drop_first().len() ==> #[trigger] rows.drop_first()[j] == rows[j
                    + 1]);
            match first_live_title(rows.drop_first(), value) {
                Some(i) => {
                    assert(first_live_title(rows, value) == Some(i + 1));
                    assert(rows[i + 1] == rows.drop_first()[i]);
                    assert forall|j: int| 0 <= j < i + 1 implies !row_live_first_field(
                        #[trigger] rows[j],
                        value,
                    ) by {
                        if j > 0 {
                            assert(rows[j] == rows.drop_first()[j - 1]);
                        }
                    }
                },
                None => {
                    assert forall|j: int| 0 <= j < rows.len() implies !row_live_first_field(
                        #[trigger] rows[j],
                        value,
                    ) by {
                        if j > 0 {
                            assert(rows[j] == rows.drop_first()[j - 1]);
                        }
                    }
                },
            }
        }
    }
}

/// `pre` followed by `:` is a literal prefix of `s`.
pub open spec fn has_source_prefix(s: Seq<char>, pre: Seq<char>) -> bool {
    s.len() > pre.len() && s.subrange(0, pre.len() as int + 1) == pre.push(':')
}

/// A live row the orphan sweep may consider: its external id starts with
/// `source:`, and when a scope is given its parent lies inside the scope.
pub open spec fn sweep_candidate(m: RowModel, source: Seq<char>, scope: Option<i32>) -> bool {
    &&& is_live(m)
    &&& (m.external_id matches Some(s) && has_source_prefix(s, source))
    &&& (scope matches Some(p) ==> m.parent == Some(p))
}

/// The row as `update` rewrites it: new semantic fields, fingerprint and
/// payload, a fresh update stamp, everything else untouched.
pub open spec fn updated_row(
    m: RowModel,
    fields: Seq<Option<Seq<char>>>,
    content_hash: Option<Seq<char>>,
    aux: Option<Seq<char>>,
    now: Seq<char>,
) -> RowModel {
    RowModel { fields, content_hash, aux, updated_at: now, ..m }
}

/// The row as `soft_delete` rewrites it: only the deletion stamp is set.
pub open spec fn deleted_row(m: RowModel, now: Seq<char>) -> RowModel {
    RowModel { deleted_at: Some(now), ..m }
}

/// The row `create` appends for the given arguments.
pub open spec fn created_row(
    id: i32,
    parent: Option<i32>,
    external_id: Option<Seq<char>>,
    content_hash: Option<Seq<char>>,
    fields: Seq<Option<Seq<char>>>,
    aux: Option<Seq<char>>,
    now: Seq<char>,
) -> RowModel {
    RowModel {
        id,
        parent,
        external_id,
        content_hash,
        fields,
        aux,
        created_at: now,
        updated_at: now,
        deleted_at: None,
    }
}

/// The store for one entity kind.
pub struct EntityStore {
    pub rows: Vec<Row>,
    pub next_id: i32,
    pub now: String,
}

impl EntityStore {
    /// The store's mathematical model: its rows, in insertion order.
    pub open spec fn models(self) -> Seq<RowModel> {
        self.rows@.map_values(|r: Row| r@)
    }

    /// Ids are store-assigned, unique and never reused; external ids are
    /// unique among live rows.
    pub open spec fn wf(self) -> bool {
        &&& 1 <= self.next_id
        &&& forall|i: int|
            0 <= i < self.models().len() ==> 1 <= (#[trigger] self.models()[i]).id < self.next_id
        &&& forall|i: int, j: int|
            #![trigger self.models()[i], self.models()[j]]
            0 <= i < self.models().len() && 0 <= j < self.models().len() && i != j
                ==> self.models()[i].id != self.models()[j].id
        &&& forall|i: int, j: int|
            #![trigger self.models()[i], self.models()[j]]
            0 <= i < self.models().len() && 0 <= j < self.models().len() && i != j && is_live(
                self.models()[i],
            ) && is_live(self.models()[j]) && self.models()[i].external_id is Some
                ==> self.models()[i].external_id != self.models()[j].external_id
    }

    pub fn new() -> (r: EntityStore)
        ensures
            r.wf(),
            r.models().len() == 0,
            r.next_id == 1,
            r.now@ == Seq::<char>::empty(),
    {
        EntityStore { rows: Vec::new(), next_id: 1, now: String::new() }
    }

    /// Sets the timestamp label that subsequent writes stamp onto rows.
    pub fn set_now(&mut self, now: String)
        ensures
            final(self).models() == old(self).models(),
            final(self).next_id == old(self).next_id,
            final(self).now == now,
    {
        self.now = now;
        proof {
            assert(self.models() =~= old(self).models());
        }
    }

    /// How many rows the store holds, soft-deleted ones included.
    pub fn row_count(&self) -> (r: usize)
        ensures
            r == self.models().len(),
    {
        self.rows.len()
    }

    /// Looks a live row up by its external id; soft-deleted rows are unseen.
    pub fn find_by_external_id(&self, eid: &str) -> (r: Option<Row>)
        ensures
            match r {
                Some(row) => exists|i: int|
                    0 <= i < self.models().len() && self.models()[i] == row@ && row_live_eid(
                        row@,
                        eid@,
                    ),
                None => forall|i: int|
                    0 <= i < self.models().len() ==> !row_live_eid(
                        #[trigger] self.models()[i],
                        eid@,
                    ),
            },
    {
        let n = self.rows.len();
        let mut i: usize = 0;
        while i < n
            invariant
                n == self.models().len(),
                i <= n,
                forall|j: int| 0 <= j < i ==> !row_live_eid(#[trigger] self.models()[j], eid@),
            decreases n - i,
        {
            let row = &self.rows[i];
            proof {
                assert(self.models()[i as int] == row@);
            }
            if row.deleted_at.is_none() {
                match &row.external_id {
                    Some(s) => {
                        if crate::str_eq(s.as_str(), eid) {
                            let out = duplicate_row(row);
                            return Some(out);
                        }
                    },
                    None => {},
                }
            }
            i = i + 1;
        }
        None
    }

    /// Looks a live row up by its first semantic field (a resource's title);
    /// among several matches the oldest row wins.
    pub fn find_by_first_field(&self, value: &str) -> (r: Option<Row>)
        ensures
            match r {
                Some(row) => first_live_title(self.models(), value@) matches Some(i) && row@
                    == self.models()[i],
                None => first_live_title(self.models(), value@) is None,
            },
    {
        let n = self.rows.len();
        let mut i: usize = 0;
        while i < n
            invariant
                n == self.models().len(),
                i <= n,
                forall|j: int|
                    0 <= j < i ==> !row_live_first_field(#[trigger] self.models()[j], value@),
            decreases n - i,
        {
            let row = &self.rows[i];
            proof {
                assert(self.models()[i as int] == row@);
            }
            if row.deleted_at.is_none() && row.fields.len() > 0 {
                match &row.fields[0] {
                    Some(s) => {
                        if crate::str_eq(s.as_str(), value) {
                            let out = duplicate_row(row);
                            proof {
                                lemma_first_live_title(self.models(), value@);
                                match first_live_title(self.models(), value@) {
                                    Some(w) => {
                                        if w < i as int {
                                            assert(!row_live_first_field(
                                                self.models()[w],
                                                value@,
                                            ));
                                        }
                                        if w > i as int {
                                            assert(!row_live_first_field(
                                                self.models()[i as int],
                                                value@,
                                            ));
                                        }
                                    },
                                    None => {
                                        assert(!row_live_first_field(
                                            self.models()[i as int],
                                            value@,
                                        ));
                                    },
                                }
                            }
                            return Some(out);
                        }
                    },
                    None => {},
                }
            }
            i = i + 1;
        }
        proof {
            lemma_first_live_title(self.models(), value@);
        }
        None
    }

    /// Creates a row; refuses an external id that a live row already carries
    /// (the store's uniqueness constraint).
    pub fn create(
        &mut self,
        parent: Option<i32>,
        fields: Vec<Option<String>>,
        external_id: Option<String>,
        content_hash: Option<String>,
        aux: Option<String>,
    ) -> (r: Result<i32, StoreError>)
        requires
            old(self).wf(),
            old(self).next_id < i32::MAX,
        ensures
            final(self).wf(),
            final(self).now == old(self).now,
            match r {
                Ok(id) => {
                    &&& !(opt_view(external_id) matches Some(e) && exists|i: int|
                        0 <= i < old(self).models().len() && row_live_eid(
                            #[trigger] old(self).models()[i],
                            e,
                        ))
                    &&& id == old(self).next_id
                    &&& final(self).next_id == old(self).next_id + 1
                    &&& final(self).models() == old(self).models().push(
                        created_row(
                            id,
                            parent,
                            opt_view(external_id),
                            opt_view(content_hash),
                            fields_view(fields@),
                            opt_view(aux),
                            old(self).now@,
                        ),
                    )
                },
                Err(_) => {
                    &&& opt_view(external_id) matches Some(e) && exists|i: int|
                        0 <= i < old(self).models().len() && row_live_eid(
                            #[trigger] old(self).models()[i],
                            e,
                        )
                    &&& *final(self) == *old(self)
                },
            },
    {
        match &external_id {
            Some(e) => {
                if self.find_by_external_id(e.as_str()).is_some() {
                    return Err(StoreError::UniqueViolation);
                }
            },
            None => {},
        }
        let id = self.next_id;
        let row = Row {
            id,
            parent,
            external_id,
            content_hash,
            fields,
            aux,
            created_at: self.now.clone(),
            updated_at: self.now.clone(),
            deleted_at: None,
        };
        self.rows.push(row);
        self.next_id = self.next_id + 1;
        proof {
            let last = old(self).models().len() as int;
            assert(self.models() =~= old(self).models().push(self.models()[last]));
            assert forall|i: int, j: int|
                #![trigger self.models()[i], self.models()[j]]
                0 <= i < self.models().len() && 0 <= j < self.models().len() && i != j && is_live(
                    self.models()[i],
                ) && is_live(self.models()[j]) && self.models()[i].external_id is Some implies self
                .models()[i].external_id != self.models()[j].external_id by {
                if i == last || j == last {
                    let k = if i == last {
                        j
                    } else {
                        i
                    };
                    assert(old(self).models()[k] == self.models()[k]);
                }
            }
        }
        Ok(id)
    }

    /// Rewrites a live row's semantic fields, fingerprint and payload;
    /// answers `None` when the id is gone or already soft-deleted.
    pub fn update(
        &mut self,
        id: i32,
        fields: Vec<Option<String>>,
        content_hash: Option<String>,
        aux: Option<String>,
    ) -> (r: Option<Row>)
        requires
            old(self).wf(),
        ensures
            final(self).wf(),
            final(self).next_id == old(self).next_id,
            final(self).now == old(self).now,
            final(self).models().len() == old(self).models().len(),
            forall|j: int|
                0 <= j < old(self).models().len() ==> final(self).models()[j] == (if row_live_id(
                    #[trigger] old(self).models()[j],
                    id,
                ) {
                    updated_row(
                        old(self).models()[j],
                        fields_view(fields@),
                        opt_view(content_hash),
                        opt_view(aux),
                        old(self).now@,
                    )
                } else {
                    old(self).models()[j]
                }),
            r is Some <==> exists|j: int|
                0 <= j < old(self).models().len() && row_live_id(
                    #[trigger] old(self).models()[j],
                    id,
                ),
            match r {
                Some(row) => exists|j: int|
                    0 <= j < old(self).models().len() && row_live_id(
                        #[trigger] old(self).models()[j],
                        id,
                    ) && row@ == updated_row(
                        old(self).models()[j],
                        fields_view(fields@),
                        opt_view(content_hash),
                        opt_view(aux),
                        old(self).now@,
                    ),
                None => *final(self) == *old(self),
            },
    {
        let n = self.rows.len();
        let mut i: usize = 0;
        while i < n
            invariant
                n == self.models().len(),
                i <= n,
                *self == *old(self),
                old(self).wf(),
                forall|j: int| 0 <= j < i ==> !row_live_id(#[trigger] self.models()[j], id),
            decreases n - i,
        {
            proof {
                assert(self.models()[i as int] == self.rows@[i as int]@);
            }
            let live = self.rows[i].deleted_at.is_none();
            if live && self.rows[i].id == id {
                let now = self.now.clone();
                let old_row = &self.rows[i];
                let new_row = Row {
                    id: old_row.id,
                    parent: old_row.parent,
                    external_id: clone_opt_string(&old_row.external_id),
                    content_hash,
                    fields,
                    aux,
                    created_at: old_row.created_at.clone(),
                    updated_at: now,
                    deleted_at: None,
                };
                let result = duplicate_row(&new_row);
                self.rows.set(i, new_row);
                proof {
                    let k = i as int;
                    assert(self.models()[k] == self.rows@[k]@);
                    assert(forall|j: int|
                        0 <= j < old(self).models().len() && j != k
                            ==> #[trigger] self.models()[j] == old(self).models()[j]);
                    assert(self.models()[k] == updated_row(
                        old(self).models()[k],
                        fields_view(fields@),
                        opt_view(content_hash),
                        opt_view(aux),
                        old(self).now@,
                    ));
                    assert forall|j: int|
                        0 <= j < old(self).models().len() && j != k implies !row_live_id(
                        #[trigger] old(self).models()[j],
                        id,
                    ) by {
                        if is_live(old(self).models()[j]) {
                            assert(old(self).models()[j].id != old(self).models()[k].id);
                        }
                    }
                }
                return Some(result);
            }
            i = i + 1;
        }
        None
    }

    /// Stamps a live row deleted; answers whether a live row existed.
    /// The row itself persists, external id included.
    pub fn soft_delete(&mut self, id: i32) -> (r: bool)
        requires
            old(self).wf(),
        ensures
            final(self).wf(),
            final(self).next_id == old(self).next_id,
            final(self).now == old(self).now,
            final(self).models().len() == old(self).models().len(),
            forall|j: int|
                0 <= j < old(self).models().len() ==> final(self).models()[j] == (if row_live_id(
                    #[trigger] old(self).models()[j],
                    id,
                ) {
                    deleted_row(old(self).models()[j], old(self).now@)
                } else {
                    old(self).models()[j]
                }),
            r == exists|j: int|
                0 <= j < old(self).models().len() && row_live_id(
                    #[trigger] old(self).models()[j],
                    id,
                ),
    {
        let n = self.rows.len();
        let mut i: usize = 0;
        while i < n
            invariant
                n == self.models().len(),
                i <= n,
                *self == *old(self),
                old(self).wf(),
                forall|j: int| 0 <= j < i ==> !row_live_id(#[trigger] self.models()[j], id),
            decreases n - i,
        {
            proof {
                assert(self.models()[i as int] == self.rows@[i as int]@);
            }
            let live = self.rows[i].deleted_at.is_none();
            if live && self.rows[i].id == id {
                let now = self.now.clone();
                let old_row = &self.rows[i];
                let new_row = Row {
                    id: old_row.id,
                    parent: old_row.parent,
                    external_id: clone_opt_string(&old_row.external_id),
                    content_hash: clone_opt_string(&old_row.content_hash),
                    fields: clone_fields(&old_row.fields),
                    aux: clone_opt_string(&old_row.aux),
                    created_at: old_row.created_at.clone(),
                    updated_at: old_row.updated_at.clone(),
                    deleted_at: Some(now),
                };
                self.rows.set(i, new_row);
                proof {
                    let k = i as int;
                    assert(self.models()[k] == self.rows@[k]@);
                    assert(forall|j: int|
                        0 <= j < old(self).models().len() && j != k
                            ==> #[trigger] self.models()[j] == old(self).models()[j]);
                    assert(self.models()[k] == deleted_row(old(self).models()[k], old(self).now@));
                    assert forall|j: int|
                        0 <= j < old(self).models().len() && j != k implies !row_live_id(
                        #[trigger] old(self).models()[j],
                        id,
                    ) by {
                        if is_live(old(self).models()[j]) {
                            assert(old(self).models()[j].id != old(self).models()[k].id);
                        }
                    }
                }
                return true;
            }
            i = i + 1;
        }
        false
    }

    /// The live rows whose external id starts with `source:`, restricted to
    /// a parent when a scope is given — the orphan sweep's candidate set.
    pub fn find_by_source_prefix(&self, source: &str, scope: Option<i32>) -> (r: Vec<Row>)
        ensures
            r@.map_values(|row: Row| row@) == self.models().filter(
                |m: RowModel| sweep_candidate(m, source@, scope),
            ),
    {
        let ghost pred = |m: RowModel| sweep_candidate(m, source@, scope);
        let n = self.rows.len();
        let mut out: Vec<Row> = Vec::new();
        let mut i: usize = 0;
        proof {
            reveal(Seq::filter);
            assert(out@.map_values(|row: Row| row@) =~= self.models().take(0).filter(pred));
        }
        while i < n
            invariant
                n == self.models().len(),
                i <= n,
                pred == (|m: RowModel| sweep_candidate(m, source@, scope)),
                out@.map_values(|row: Row| row@) == self.models().take(i as int).filter(pred),
            decreases n - i,
        {
            let ghost prefix = self.models().take(i as int);
            let row = &self.rows[i];
            proof {
                assert(self.models()[i as int] == row@);
            }
            let mut keep = false;
            if row.deleted_at.is_none() {
                match &row.external_id {
                    Some(s) => {
                        if starts_with_source(s.as_str(), source) {
                            match (scope, &row.parent) {
                                (Some(p), Some(q)) => {
                                    keep = *q == p;
                                },
                                (Some(_), None) => {
                                    keep = false;
                                },
                                (None, _) => {
                                    keep = true;
                                },
                            }
                        }
                    },
                    None => {},
                }
            }
            proof {
                assert(keep == pred(self.models()[i as int]));
            }
            if keep {
                let dup = duplicate_row(row);
                out.push(dup);
            }
            proof {
                reveal(Seq::filter);
                let m = self.models()[i as int];
                assert(self.models().take(i + 1 as int) =~= prefix.push(m));
                assert(prefix.push(m).drop_last() =~= prefix);
                assert(prefix.push(m).last() == m);
                if keep {
                    assert(out@.map_values(|row: Row| row@) =~= prefix.filter(pred).push(m));
                }
                assert(out@.map_values(|row: Row| row@) == self.models().take(i + 1 as int).filter(
                    pred,
                ));
            }
            i = i + 1;
        }
        proof {
            assert(self.models().take(n as int) =~= self.models());
        }
        out
    }
}

/// Answers whether `s` starts with the literal prefix `source` followed by `:`.
pub fn starts_with_source(s: &str, source: &str) -> (r: bool)
    ensures
        r == has_source_prefix(s@, source@),
{
    let pre_len = source.unicode_len();
    let s_len = s.unicode_len();
    if s_len <= pre_len {
        proof {
            if has_source_prefix(s@, source@) {
                assert(s@.len() > source@.len());
            }
        }
        return false;
    }
    let mut i: usize = 0;
    while i < pre_len
        invariant
            pre_len == source@.len(),
            s_len == s@.len(),
            s_len > pre_len,
            i <= pre_len,
            forall|j: int| 0 <= j < i ==> s@[j] == source@[j],
        decreases pre_len - i,
    {
        if s.get_char(i) != source.get_char(i) {
            proof {
                if has_source_prefix(s@, source@) {
                    let k = i as int;
                    assert(s@.subrange(0, source@.len() as int + 1)[k] == source@.push(':')[k]);
                }
            }
            return false;
        }
        i = i + 1;
    }
    let r = s.get_char(pre_len) == ':';
    proof {
        if r {
            assert(s@.subrange(0, source@.len() as int + 1) =~= source@.push(':'));
        } else {
            if has_source_prefix(s@, source@) {
                let k = source@.len() as int;
                assert(s@.subrange(0, source@.len() as int + 1)[k] == source@.push(':')[k]);
            }
        }
    }
    r
}

/// A copy of an optional string with the same view.
pub fn clone_opt_string(s: &Option<String>) -> (r: Option<String>)
    ensures
        opt_view(r) == opt_view(*s),
{
    match s {
        Some(x) => Some(x.clone()),
        None => None,
    }
}

/// A copy of a field list with the same view.
pub fn clone_fields(v: &Vec<Option<String>>) -> (r: Vec<Option<String>>)
    ensures
        fields_view(r@) == fields_view(v@),
{
    let mut out: Vec<Option<String>> = Vec::new();
    let mut i: usize = 0;
    while i < v.len()
        invariant
            i <= v@.len(),
            out@.len() == i,
            fields_view(out@) == fields_view(v@.take(i as int)),
        decreases v@.len() - i,
    {
        let ghost before = out@;
        out.push(clone_opt_string(&v[i]));
        proof {
            assert(out@ == before.push(out@[i as int]));
            assert(v@.take(i + 1 as int) =~= v@.take(i as int).push(v@[i as int]));
            assert forall|j: int| 0 <= j < i + 1 implies fields_view(out@)[j] == fields_view(
                v@.take(i + 1 as int),
            )[j] by {
                if j < i {
                    assert(fields_view(before)[j] == fields_view(v@.take(i as int))[j]);
                    assert(out@[j] == before[j]);
                    assert(v@.take(i + 1 as int)[j] == v@.take(i as int)[j]);
                }
            }
            assert(fields_view(out@) =~= fields_view(v@.take(i + 1 as int)));
        }
        i = i + 1;
    }
    proof {
        assert(v@.take(v@.len() as int) =~= v@);
        assert(fields_view(out@) =~= fields_view(v@));
    }
    out
}

/// A copy of a row with the same model.
pub fn duplicate_row(row: &Row) -> (r: Row)
    ensures
        r@ == row@,
{
    Row {
        id: row.id,
        parent: row.parent,
        external_id: clone_opt_string(&row.external_id),
        content_hash: clone_opt_string(&row.content_hash),
        fields: clone_fields(&row.fields),
        aux: clone_opt_string(&row.aux),
        created_at: row.created_at.clone(),
        updated_at: row.updated_at.clone(),
        deleted_at: clone_opt_string(&row.deleted_at),
    }
}

} // verus!
