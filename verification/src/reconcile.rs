//! The reconciliation engine for one entity kind.
//!
//! An upsert pass walks the candidate records of one source: each candidate
//! is fingerprinted, looked up by its namespaced external id, and created,
//! updated or left alone; the pass never fails a batch on one record.  The
//! orphan sweep then soft-deletes every live row of the source that the pass
//! did not see, leaving rows outside the optional scope untouched.
use vstd::prelude::*;

use crate::hash::{fields_view, hash_fields, hash_fields_spec};
use crate::store::{
    created_row, deleted_row, is_live, opt_view, row_live_eid, row_live_id, sweep_candidate,
    updated_row, EntityStore, Row, RowModel,
};
use crate::sync::SyncStats;

verus! {

/// One incoming record: its native id within the source, its parent row when
/// the kind has one, its semantic fields in the kind's fixed order, and a
/// payload persisted alongside them.
pub struct Candidate {
    pub native_id: String,
    pub parent: Option<i32>,
    pub fields: Vec<Option<String>>,
    pub aux: Option<String>,
}

/// The mathematical content of a candidate.
pub ghost struct CandidateModel {
    pub native_id: Seq<char>,
    pub parent: Option<i32>,
    pub fields: Seq<Option<Seq<char>>>,
    pub aux: Option<Seq<char>>,
}

impl View for Candidate {
    type V = CandidateModel;

    open spec fn view(&self) -> CandidateModel {
        CandidateModel {
            native_id: self.native_id@,
            parent: self.parent,
            fields: fields_view(self.fields@),
            aux: opt_view(self.aux),
        }
    }
}

/// The state of one kind's store, as contracts see it.
pub ghost struct StoreModel {
    pub rows: Seq<RowModel>,
    pub next_id: int,
    pub now: Seq<char>,
}

/// The model behind an [`EntityStore`].
pub open spec fn store_model(s: EntityStore) -> StoreModel {
    StoreModel { rows: s.models(), next_id: s.next_id as int, now: s.now@ }
}

/// What the store's well-formedness means at the model level.
pub open spec fn model_wf(s: StoreModel) -> bool {
    &&& 1 <= s.next_id <= i32::MAX
    &&& forall|i: int| 0 <= i < s.rows.len() ==> 1 <= (#[trigger] s.rows[i]).id < s.next_id
    &&& forall|i: int, j: int|
        #![trigger s.rows[i], s.rows[j]]
        0 <= i < s.rows.len() && 0 <= j < s.rows.len() && i != j ==> s.rows[i].id != s.rows[j].id
    &&& forall|i: int, j: int|
        #![trigger s.rows[i], s.rows[j]]
        0 <= i < s.rows.len() && 0 <= j < s.rows.len() && i != j && is_live(s.rows[i]) && is_live(
            s.rows[j],
        ) && s.rows[i].external_id is Some ==> s.rows[i].external_id != s.rows[j].external_id
}

/// The namespaced external id `"<source>:<native id>"`.
pub open spec fn external_id_of(source: Seq<char>, native_id: Seq<char>) -> Seq<char> {
    source.push(':') + native_id
}

/// Builds the namespaced external id tying a canonical record to its origin.
pub fn format_external_id(source: &str, native_id: &str) -> (r: String)
    ensures
        r@ == external_id_of(source@, native_id@),
{
    let mut r = String::new();
    r.append(source);
    r.append(":");
    r.append(native_id);
    proof {
        reveal_strlit(":");
        assert(":"@.len() == 1);
        assert(r@ =~= external_id_of(source@, native_id@));
    }
    r
}

/// A namespaced external id always starts with its own source prefix.
pub proof fn lemma_external_id_has_prefix(source: Seq<char>, native_id: Seq<char>)
    ensures
        crate::store::has_source_prefix(external_id_of(source, native_id), source),
{
    let e = external_id_of(source, native_id);
    assert(e.subrange(0, source.len() as int + 1) =~= source.push(':'));
}

/// The set of external ids that remembering a batch builds up.
pub struct SeenSet {
    items: Vec<String>,
}

impl View for SeenSet {
    type V = Set<Seq<char>>;

    closed spec fn view(&self) -> Set<Seq<char>> {
        Set::new(
            |e: Seq<char>|
                exists|i: int| 0 <= i < self.items@.len() && (#[trigger] self.items@[i])@ == e,
        )
    }
}

impl SeenSet {
    pub fn new() -> (r: SeenSet)
        ensures
            r@ == Set::<Seq<char>>::empty(),
    {
        let r = SeenSet { items: Vec::new() };
        proof {
            assert(r@ =~= Set::<Seq<char>>::empty());
        }
        r
    }

    /// Remembers one external id.
    pub fn insert(&mut self, eid: String)
        ensures
            final(self)@ == old(self)@.insert(eid@),
    {
        self.items.push(eid);
        proof {
            let n = old(self).items@.len() as int;
            assert forall|e: Seq<char>| final(self)@.contains(e) implies old(self)@.insert(
                eid@,
            ).contains(e) by {
                let i = choose|i: int|
                    0 <= i < self.items@.len() && (#[trigger] self.items@[i])@ == e;
                if i < n {
                    assert((old(self).items@[i])@ == e);
                }
            }
            assert forall|e: Seq<char>|
                old(self)@.insert(eid@).contains(e) implies final(self)@.contains(e) by {
                if old(self)@.contains(e) {
                    let i = choose|i: int|
                        0 <= i < old(self).items@.len() && (#[trigger] old(self).items@[i])@ == e;
                    assert((self.items@[i])@ == e);
                } else {
                    assert((self.items@[n])@ == e);
                }
            }
            assert(final(self)@ =~= old(self)@.insert(eid@));
        }
    }

    /// Answers whether an external id was remembered.
    pub fn contains(&self, eid: &str) -> (r: bool)
        ensures
            r == self@.contains(eid@),
    {
        let n = self.items.len();
        let mut i: usize = 0;
        while i < n
            invariant
                n == self.items@.len(),
                i <= n,
                forall|j: int| 0 <= j < i ==> (#[trigger] self.items@[j])@ != eid@,
            decreases n - i,
        {
            if crate::str_eq(self.items[i].as_str(), eid) {
                return true;
            }
            i = i + 1;
        }
        false
    }
}

/// A record absent from the batch: it carries an external id that the pass
/// did not see.  Records without an external id are never orphans.
pub open spec fn is_orphan_spec(external_id: Option<Seq<char>>, seen: Set<Seq<char>>) -> bool {
    external_id matches Some(e) && !seen.contains(e)
}

/// Answers whether a record's external id marks it as an orphan.
pub fn is_orphan(external_id: &Option<String>, seen: &SeenSet) -> (r: bool)
    ensures
        r == is_orphan_spec(opt_view(*external_id), seen@),
{
    match external_id {
        Some(e) => !seen.contains(e.as_str()),
        None => false,
    }
}

/// Answers whether a stored fingerprint equals the newly computed one.
pub fn hash_matches(existing_hash: &Option<String>, new_hash: &str) -> (r: bool)
    ensures
        r == (opt_view(*existing_hash) == Some(new_hash@)),
{
    match existing_hash {
        Some(h) => crate::str_eq(h.as_str(), new_hash),
        None => false,
    }
}

/// How the pass classified one candidate.
pub ghost enum SyncClass {
    Created,
    Updated,
    Unchanged,
}

/// The index of the live row carrying this external id, when there is one.
pub open spec fn find_live(rows: Seq<RowModel>, eid: Seq<char>) -> Option<int> {
    if exists|i: int| 0 <= i < rows.len() && row_live_eid(#[trigger] rows[i], eid) {
        Some(choose|i: int| 0 <= i < rows.len() && row_live_eid(#[trigger] rows[i], eid))
    } else {
        None
    }
}

/// How one candidate is classified against a store state.
pub open spec fn upsert_class(s: StoreModel, source: Seq<char>, c: CandidateModel) -> SyncClass {
    let eid = external_id_of(source, c.native_id);
    let h = hash_fields_spec(c.fields);
    match find_live(s.rows, eid) {
        None => SyncClass::Created,
        Some(i) => if s.rows[i].content_hash == Some(h) {
            SyncClass::Unchanged
        } else {
            SyncClass::Updated
        },
    }
}

/// The store state after one candidate is upserted: a miss appends a fresh
/// row, a fingerprint match writes nothing, anything else rewrites the row.
pub open spec fn apply_upsert(s: StoreModel, source: Seq<char>, c: CandidateModel) -> StoreModel {
    let eid = external_id_of(source, c.native_id);
    let h = hash_fields_spec(c.fields);
    match find_live(s.rows, eid) {
        None => StoreModel {
            rows: s.rows.push(
                created_row(
                    s.next_id as i32,
                    c.parent,
                    Some(eid),
                    Some(h),
                    c.fields,
                    c.aux,
                    s.now,
                ),
            ),
            next_id: s.next_id + 1,
            now: s.now,
        },
        Some(i) => if s.rows[i].content_hash == Some(h) {
            s
        } else {
            StoreModel {
                rows: s.rows.update(i, updated_row(s.rows[i], c.fields, Some(h), c.aux, s.now)),
                next_id: s.next_id,
                now: s.now,
            }
        },
    }
}

/// The store state after a whole candidate sequence is upserted, in order.
pub open spec fn run_upserts(s: StoreModel, source: Seq<char>, cands: Seq<CandidateModel>) -> StoreModel
    decreases cands.len(),
{
    if cands.len() == 0 {
        s
    } else {
        apply_upsert(run_upserts(s, source, cands.drop_last()), source, cands.last())
    }
}

/// Counter deltas of a pass.
pub ghost struct Counts {
    pub created: int,
    pub updated: int,
    pub unchanged: int,
}

impl Counts {
    pub open spec fn zero() -> Counts {
        Counts { created: 0, updated: 0, unchanged: 0 }
    }

    pub open spec fn add_class(self, c: SyncClass) -> Counts {
        match c {
            SyncClass::Created => Counts { created: self.created + 1, ..self },
            SyncClass::Updated => Counts { updated: self.updated + 1, ..self },
            SyncClass::Unchanged => Counts { unchanged: self.unchanged + 1, ..self },
        }
    }

    pub open spec fn total(self) -> int {
        self.created + self.updated + self.unchanged
    }
}

/// The classification counters a candidate sequence produces.
pub open spec fn upsert_counts(s: StoreModel, source: Seq<char>, cands: Seq<CandidateModel>) -> Counts
    decreases cands.len(),
{
    if cands.len() == 0 {
        Counts::zero()
    } else {
        upsert_counts(s, source, cands.drop_last()).add_class(
            upsert_class(run_upserts(s, source, cands.drop_last()), source, cands.last()),
        )
    }
}

/// The external ids a candidate sequence stamps into the seen set.
pub open spec fn eids_of(source: Seq<char>, cands: Seq<CandidateModel>) -> Set<Seq<char>> {
    Set::new(
        |e: Seq<char>|
            exists|i: int|
                0 <= i < cands.len() && e == external_id_of(
                    source,
                    (#[trigger] cands[i]).native_id,
                ),
    )
}

/// Every counter a pass can produce is bounded by the number of candidates.
pub proof fn lemma_upsert_counts_bounded(s: StoreModel, source: Seq<char>, cands: Seq<CandidateModel>)
    ensures
        0 <= upsert_counts(s, source, cands).created,
        0 <= upsert_counts(s, source, cands).updated,
        0 <= upsert_counts(s, source, cands).unchanged,
        upsert_counts(s, source, cands).total() == cands.len(),
    decreases cands.len(),
{
    if cands.len() > 0 {
        lemma_upsert_counts_bounded(s, source, cands.drop_last());
    }
}

/// A store's well-formedness carries over to its model.
pub proof fn lemma_store_wf_model(s: EntityStore)
    requires
        s.wf(),
    ensures
        model_wf(store_model(s)),
{
}

/// Upserts one candidate record: fingerprint, lookup by external id, then
/// create, update or leave alone; the external id is stamped into `seen`
/// either way.  Returns the id of the row now carrying the record.
pub fn upsert_candidate(
    store: &mut EntityStore,
    source: &str,
    cand: &Candidate,
    seen: &mut SeenSet,
    stats: &mut SyncStats,
) -> (r: Option<i32>)
    requires
        old(store).wf(),
        old(store).next_id < i32::MAX,
        old(stats).created < i32::MAX,
        old(stats).updated < i32::MAX,
        old(stats).unchanged < i32::MAX,
    ensures
        final(store).wf(),
        store_model(*final(store)) == apply_upsert(store_model(*old(store)), source@, cand@),
        final(store).next_id <= old(store).next_id + 1,
        final(store).now == old(store).now,
        final(seen)@ == old(seen)@.insert(external_id_of(source@, cand@.native_id)),
        *final(stats) == (match upsert_class(store_model(*old(store)), source@, cand@) {
            SyncClass::Created => SyncStats {
                created: (old(stats).created + 1) as i32,
                ..*old(stats)
            },
            SyncClass::Updated => SyncStats {
                updated: (old(stats).updated + 1) as i32,
                ..*old(stats)
            },
            SyncClass::Unchanged => SyncStats {
                unchanged: (old(stats).unchanged + 1) as i32,
                ..*old(stats)
            },
        }),
        ({
            let s0 = store_model(*old(store));
            let eid = external_id_of(source@, cand@.native_id);
            match find_live(s0.rows, eid) {
                None => r == Some(s0.next_id as i32),
                Some(i) => r == Some(s0.rows[i].id),
            }
        }),
{
    let ghost s0 = store_model(*old(store));
    let ghost eid_spec = external_id_of(source@, cand@.native_id);
    let ghost h_spec = hash_fields_spec(cand@.fields);
    let eid = format_external_id(source, self_str(&cand.native_id));
    let h = hash_fields(&cand.fields);
    seen.insert(eid.clone());
    let found = store.find_by_external_id(eid.as_str());
    match found {
        None => {
            proof {
                assert(find_live(s0.rows, eid_spec) is None);
            }
            let created = store.create(
                cand.parent,
                crate::store::clone_fields(&cand.fields),
                Some(eid),
                Some(h),
                crate::store::clone_opt_string(&cand.aux),
            );
            match created {
                Ok(id) => {
                    stats.record_created();
                    proof {
                        assert(store_model(*store).rows =~= apply_upsert(
                            s0,
                            source@,
                            cand@,
                        ).rows);
                    }
                    Some(id)
                },
                Err(_) => {
                    proof {
                        assert(false);
                    }
                    None
                },
            }
        },
        Some(row) => {
            proof {
                let i = choose|i: int|
                    0 <= i < s0.rows.len() && s0.rows[i] == row@ && row_live_eid(row@, eid_spec);
                assert(row_live_eid(s0.rows[i], eid_spec));
                assert(find_live(s0.rows, eid_spec) is Some);
                let j = find_live(s0.rows, eid_spec)->0;
                assert(row_live_eid(s0.rows[j], eid_spec));
                if i != j {
                    assert(s0.rows[i].external_id != s0.rows[j].external_id);
                }
                assert(s0.rows[j] == row@);
            }
            if hash_matches(&row.content_hash, h.as_str()) {
                stats.record_unchanged();
                proof {
                    assert(store_model(*store) == apply_upsert(s0, source@, cand@));
                }
                Some(row.id)
            } else {
                let updated = store.update(
                    row.id,
                    crate::store::clone_fields(&cand.fields),
                    Some(h),
                    crate::store::clone_opt_string(&cand.aux),
                );
                proof {
                    let j = find_live(s0.rows, eid_spec)->0;
                    assert(row_live_id(s0.rows[j], row.id));
                    assert(updated is Some);
                    assert forall|k: int| 0 <= k < s0.rows.len() && k != j implies !row_live_id(
                        #[trigger] s0.rows[k],
                        row.id,
                    ) by {
                        assert(s0.rows[k].id != s0.rows[j].id);
                    }
                    assert(store_model(*store).rows =~= apply_upsert(s0, source@, cand@).rows);
                }
                match updated {
                    Some(_) => {
                        stats.record_updated();
                        Some(row.id)
                    },
                    None => {
                        proof {
                            assert(false);
                        }
                        None
                    },
                }
            }
        },
    }
}

/// Borrows a string's slice; spelled out so candidate fields can be handed on.
fn self_str(s: &String) -> (r: &str)
    ensures
        r@ == s@,
{
    s.as_str()
}

/// The models of a candidate list.
pub open spec fn cands_view(v: Seq<Candidate>) -> Seq<CandidateModel> {
    v.map_values(|c: Candidate| c@)
}

/// Upserts a whole batch of candidate records of one source, in order,
/// accumulating classifications and stamping every external id as seen.
pub fn upsert_all(
    store: &mut EntityStore,
    source: &str,
    cands: &Vec<Candidate>,
    seen: &mut SeenSet,
    stats: &mut SyncStats,
) -> (r: ())
    requires
        old(store).wf(),
        old(store).next_id + cands@.len() <= i32::MAX,
        old(stats).created + cands@.len() <= i32::MAX,
        old(stats).updated + cands@.len() <= i32::MAX,
        old(stats).unchanged + cands@.len() <= i32::MAX,
    ensures
        final(store).wf(),
        store_model(*final(store)) == run_upserts(
            store_model(*old(store)),
            source@,
            cands_view(cands@),
        ),
        final(store).next_id <= old(store).next_id + cands@.len(),
        final(store).now == old(store).now,
        final(seen)@ == old(seen)@.union(eids_of(source@, cands_view(cands@))),
        ({
            let c = upsert_counts(store_model(*old(store)), source@, cands_view(cands@));
            *final(stats) == (SyncStats {
                created: (old(stats).created + c.created) as i32,
                updated: (old(stats).updated + c.updated) as i32,
                unchanged: (old(stats).unchanged + c.unchanged) as i32,
                ..*old(stats)
            })
        }),
{
    let ghost m0 = store_model(*old(store));
    let ghost cv = cands_view(cands@);
    let n = cands.len();
    proof {
        assert(cv.take(0) =~= Seq::<CandidateModel>::empty());
        assert(seen@ =~= seen@.union(eids_of(source@, cv.take(0))));
        lemma_upsert_counts_bounded(m0, source@, cv.take(0));
    }
    let mut i: usize = 0;
    while i < n
        invariant
            n == cands@.len(),
            i <= n,
            cv == cands_view(cands@),
            store.wf(),
            store_model(*store) == run_upserts(m0, source@, cv.take(i as int)),
            store.next_id <= m0.next_id + i,
            store.now == old(store).now,
            m0 == store_model(*old(store)),
            m0.next_id + n <= i32::MAX,
            seen@ == old(seen)@.union(eids_of(source@, cv.take(i as int))),
            ({
                let c = upsert_counts(m0, source@, cv.take(i as int));
                *stats == (SyncStats {
                    created: (old(stats).created + c.created) as i32,
                    updated: (old(stats).updated + c.updated) as i32,
                    unchanged: (old(stats).unchanged + c.unchanged) as i32,
                    ..*old(stats)
                })
            }),
            old(stats).created + n <= i32::MAX,
            old(stats).updated + n <= i32::MAX,
            old(stats).unchanged + n <= i32::MAX,
        decreases n - i,
    {
        let ghost pre = store_model(*store);
        let ghost pre_seen = seen@;
        let ghost pre_stats = *stats;
        proof {
            lemma_upsert_counts_bounded(m0, source@, cv.take(i as int));
            assert(cands@[i as int]@ == cv[i as int]);
        }
        upsert_candidate(store, source, &cands[i], seen, stats);
        proof {
            assert(cv.take(i + 1 as int).drop_last() =~= cv.take(i as int));
            assert(cv.take(i + 1 as int).last() == cv[i as int]);
            assert(store_model(*store) == run_upserts(m0, source@, cv.take(i + 1 as int)));
            let e_i = external_id_of(source@, cv[i as int].native_id);
            assert forall|e: Seq<char>|
                #[trigger] seen@.contains(e) == old(seen)@.union(
                    eids_of(source@, cv.take(i + 1 as int)),
                ).contains(e) by {
                if seen@.contains(e) {
                    if !pre_seen.contains(e) {
                        assert(e == e_i);
                        assert(cv.take(i + 1 as int)[i as int] == cv[i as int]);
                        assert(eids_of(source@, cv.take(i + 1 as int)).contains(e));
                    } else {
                        if !old(seen)@.contains(e) {
                            let k = choose|k: int|
                                0 <= k < cv.take(i as int).len() && e == external_id_of(
                                    source@,
                                    (#[trigger] cv.take(i as int)[k]).native_id,
                                );
                            assert(cv.take(i + 1 as int)[k] == cv.take(i as int)[k]);
                            assert(eids_of(source@, cv.take(i + 1 as int)).contains(e));
                        }
                    }
                } else {
                    assert(!pre_seen.contains(e) && e != e_i);
                    if old(seen)@.union(eids_of(source@, cv.take(i + 1 as int))).contains(e) {
                        assert(!old(seen)@.contains(e));
                        let k = choose|k: int|
                            0 <= k < cv.take(i + 1 as int).len() && e == external_id_of(
                                source@,
                                (#[trigger] cv.take(i + 1 as int)[k]).native_id,
                            );
                        assert(k < i + 1);
                        if k < i {
                            assert(cv.take(i as int)[k] == cv.take(i + 1 as int)[k]);
                            assert(eids_of(source@, cv.take(i as int)).contains(e));
                            assert(pre_seen.contains(e));
                        } else {
                            assert(cv.take(i + 1 as int)[k] == cv[i as int]);
                            assert(e == e_i);
                        }
                    }
                }
            }
            assert(seen@ =~= old(seen)@.union(eids_of(source@, cv.take(i + 1 as int))));
            assert(upsert_counts(m0, source@, cv.take(i + 1 as int)) == upsert_counts(
                m0,
                source@,
                cv.take(i as int),
            ).add_class(upsert_class(pre, source@, cv[i as int])));
        }
        i = i + 1;
    }
    proof {
        assert(cv.take(n as int) =~= cv);
    }
}

/// A row the sweep soft-deletes: live, of this source, inside the scope, and
/// absent from the batch.
pub open spec fn orphan_pred(
    m: RowModel,
    source: Seq<char>,
    scope: Option<i32>,
    seen: Set<Seq<char>>,
) -> bool {
    sweep_candidate(m, source, scope) && is_orphan_spec(m.external_id, seen)
}

/// The store's rows after the orphan sweep: orphans are stamped deleted,
/// every other row — outside the scope, outside the source, already deleted,
/// or seen by the pass — is untouched.
pub open spec fn apply_sweep(
    rows: Seq<RowModel>,
    source: Seq<char>,
    scope: Option<i32>,
    seen: Set<Seq<char>>,
    now: Seq<char>,
) -> Seq<RowModel> {
    Seq::new(
        rows.len(),
        |j: int|
            if orphan_pred(rows[j], source, scope, seen) {
                deleted_row(rows[j], now)
            } else {
                rows[j]
            },
    )
}

/// How many rows the sweep deletes.
pub open spec fn sweep_count(
    rows: Seq<RowModel>,
    source: Seq<char>,
    scope: Option<i32>,
    seen: Set<Seq<char>>,
) -> int {
    rows.filter(|m: RowModel| orphan_pred(m, source, scope, seen)).len() as int
}

/// Filtering twice is filtering by the conjunction.
proof fn lemma_filter_filter(
    rows: Seq<RowModel>,
    p1: spec_fn(RowModel) -> bool,
    p2: spec_fn(RowModel) -> bool,
)
    ensures
        rows.filter(p1).filter(p2) == rows.filter(|m: RowModel| p1(m) && p2(m)),
    decreases rows.len(),
{
    reveal(Seq::filter);
    let both = |m: RowModel| p1(m) && p2(m);
    if rows.len() == 0 {
        assert(rows.filter(p1).filter(p2) =~= rows.filter(both));
    } else {
        let prefix = rows.drop_last();
        lemma_filter_filter(prefix, p1, p2);
        if p1(rows.last()) {
            assert(prefix.filter(p1).push(rows.last()).drop_last() =~= prefix.filter(p1));
        }
        assert(rows.filter(p1).filter(p2) =~= rows.filter(both));
    }
}

/// Every row a filter keeps is a row of the input.
proof fn lemma_filter_subset(rows: Seq<RowModel>, pred: spec_fn(RowModel) -> bool)
    ensures
        forall|i: int|
            0 <= i < rows.filter(pred).len() ==> rows.contains(#[trigger] rows.filter(pred)[i]),
    decreases rows.len(),
{
    reveal(Seq::filter);
    if rows.len() > 0 {
        let prefix = rows.drop_last();
        lemma_filter_subset(prefix, pred);
        let f = rows.filter(pred);
        let pf = prefix.filter(pred);
        assert forall|i: int| 0 <= i < f.len() implies rows.contains(#[trigger] f[i]) by {
            if pred(rows.last()) && i == f.len() - 1 {
                assert(f[i] == rows[rows.len() - 1]);
            } else {
                assert(f[i] == pf[i]);
                assert(prefix.contains(pf[i]));
                let w = choose|w: int| 0 <= w < prefix.len() && prefix[w] == pf[i];
                assert(rows[w] == pf[i]);
            }
        }
    }
}

/// Filtering by pointwise-equal predicates gives the same rows.
proof fn lemma_filter_ptwise(
    rows: Seq<RowModel>,
    p1: spec_fn(RowModel) -> bool,
    p2: spec_fn(RowModel) -> bool,
)
    requires
        forall|m: RowModel| #[trigger] p1(m) == p2(m),
    ensures
        rows.filter(p1) == rows.filter(p2),
    decreases rows.len(),
{
    reveal(Seq::filter);
    if rows.len() > 0 {
        lemma_filter_ptwise(rows.drop_last(), p1, p2);
    }
}

/// Filtering a sequence of rows with pairwise distinct ids keeps the ids
/// pairwise distinct.
proof fn lemma_filter_distinct_ids(rows: Seq<RowModel>, pred: spec_fn(RowModel) -> bool)
    requires
        forall|i: int, j: int|
            #![trigger rows[i], rows[j]]
            0 <= i < rows.len() && 0 <= j < rows.len() && i != j ==> rows[i].id != rows[j].id,
    ensures
        forall|i: int, j: int|
            #![trigger rows.filter(pred)[i], rows.filter(pred)[j]]
            0 <= i < rows.filter(pred).len() && 0 <= j < rows.filter(pred).len() && i != j
                ==> rows.filter(pred)[i].id != rows.filter(pred)[j].id,
    decreases rows.len(),
{
    reveal(Seq::filter);
    if rows.len() == 0 {
    } else {
        let prefix = rows.drop_last();
        assert(forall|i: int|
            0 <= i < prefix.len() ==> #[trigger] prefix[i] == rows[i]);
        lemma_filter_distinct_ids(prefix, pred);
        if pred(rows.last()) {
            let f = rows.filter(pred);
            let pf = prefix.filter(pred);
            assert(f == pf.push(rows.last()));
            assert forall|i: int, j: int|
                #![trigger f[i], f[j]]
                0 <= i < f.len() && 0 <= j < f.len() && i != j implies f[i].id != f[j].id by {
                broadcast use vstd::seq_lib::group_filter_ensures;

                if i < f.len() - 1 && j < f.len() - 1 {
                    assert(f[i] == pf[i] && f[j] == pf[j]);
                } else {
                    let k = if i == f.len() - 1 {
                        j
                    } else {
                        i
                    };
                    assert(f[k] == pf[k]);
                    lemma_filter_subset(prefix, pred);
                    assert(prefix.contains(pf[k]));
                    let w = choose|w: int| 0 <= w < prefix.len() && prefix[w] == pf[k];
                    assert(rows[w] == prefix[w]);
                    assert(rows[w].id != rows.last().id);
                }
            }
        }
    }
}

/// Runs the orphan sweep for one source: every live row of the source whose
/// external id the pass did not see — restricted to the scope when one is
/// given — is soft-deleted and counted; nothing else changes.
pub fn sweep_orphans(
    store: &mut EntityStore,
    source: &str,
    scope: Option<i32>,
    seen: &SeenSet,
    stats: &mut SyncStats,
)
    requires
        old(store).wf(),
        old(stats).deleted + old(store).models().len() <= i32::MAX,
    ensures
        final(store).wf(),
        final(store).next_id == old(store).next_id,
        final(store).now == old(store).now,
        final(store).models() == apply_sweep(
            old(store).models(),
            source@,
            scope,
            seen@,
            old(store).now@,
        ),
        *final(stats) == (SyncStats {
            deleted: (old(stats).deleted + sweep_count(
                old(store).models(),
                source@,
                scope,
                seen@,
            )) as i32,
            ..*old(stats)
        }),
{
    let ghost rows0 = old(store).models();
    let ghost now0 = old(store).now@;
    let ghost swc = |m: RowModel| sweep_candidate(m, source@, scope);
    let ghost orph = |m: RowModel| orphan_pred(m, source@, scope, seen@);
    let ghost noteid = |m: RowModel| is_orphan_spec(m.external_id, seen@);
    let orphans = store.find_by_source_prefix(source, scope);
    let ghost om = orphans@.map_values(|row: Row| row@);
    proof {
        broadcast use vstd::seq_lib::group_filter_ensures;

        rows0.lemma_filter_len(swc);
        lemma_filter_distinct_ids(rows0, swc);
        lemma_filter_filter(rows0, swc, noteid);
        lemma_filter_ptwise(rows0, |m: RowModel| swc(m) && noteid(m), orph);
        om.lemma_filter_len(noteid);
    }
    let k_max = orphans.len();
    let mut k: usize = 0;
    proof {
        reveal(Seq::filter);
        assert(om.take(0).filter(noteid) =~= Seq::<RowModel>::empty());
        assert forall|j: int| 0 <= j < rows0.len() implies store.models()[j] == (if orph(
            rows0[j],
        ) && id_among(om.take(0), rows0[j].id) {
            deleted_row(rows0[j], now0)
        } else {
            rows0[j]
        }) by {
            assert(!id_among(om.take(0), rows0[j].id));
        }
    }
    while k < k_max
        invariant
            k <= k_max,
            k_max == om.len(),
            om == orphans@.map_values(|row: Row| row@),
            om == rows0.filter(swc),
            swc == (|m: RowModel| sweep_candidate(m, source@, scope)),
            orph == (|m: RowModel| orphan_pred(m, source@, scope, seen@)),
            noteid == (|m: RowModel| is_orphan_spec(m.external_id, seen@)),
            rows0 == old(store).models(),
            now0 == old(store).now@,
            old(store).wf(),
            store.wf(),
            store.next_id == old(store).next_id,
            store.now == old(store).now,
            store.models().len() == rows0.len(),
            forall|j: int|
                0 <= j < rows0.len() ==> #[trigger] store.models()[j] == (if orph(rows0[j])
                    && id_among(om.take(k as int), rows0[j].id) {
                    deleted_row(rows0[j], now0)
                } else {
                    rows0[j]
                }),
            *stats == (SyncStats {
                deleted: (old(stats).deleted + om.take(k as int).filter(noteid).len()) as i32,
                ..*old(stats)
            }),
            old(stats).deleted + rows0.len() <= i32::MAX,
        decreases k_max - k,
    {
        let ghost mk = om[k as int];
        proof {
            reveal(Seq::filter);
            assert(orphans@[k as int]@ == mk);
            lemma_filter_subset(rows0, swc);
            assert(mk == rows0.filter(swc)[k as int]);
            assert(rows0.contains(mk));
            rows0.lemma_filter_pred(swc, k as int);
            assert(swc(mk));
            om.take(k as int).lemma_filter_len(noteid);
            om.lemma_filter_len(noteid);
            assert(om.take(k + 1 as int).drop_last() =~= om.take(k as int));
        }
        let orphan_row = &orphans[k];
        if is_orphan(&orphan_row.external_id, seen) {
            proof {
                assert(noteid(mk));
                assert(orph(mk));
                let jk = choose|j: int| 0 <= j < rows0.len() && rows0[j] == mk;
                lemma_filter_distinct_ids(rows0, swc);
                assert forall|l: int| 0 <= l < k implies (#[trigger] om[l]).id != mk.id by {
                    assert(om[l] == rows0.filter(swc)[l]);
                    assert(mk == rows0.filter(swc)[k as int]);
                }
                assert(!id_among(om.take(k as int), rows0[jk].id));
                assert(store.models()[jk] == rows0[jk]);
                assert(row_live_id(store.models()[jk], mk.id));
            }
            let ghost pre = store.models();
            let deleted = store.soft_delete(orphan_row.id);
            proof {
                let jk = choose|j: int| 0 <= j < rows0.len() && rows0[j] == mk;
                assert(deleted);
                assert forall|j: int| 0 <= j < rows0.len() implies #[trigger] store.models()[j]
                    == (if orph(rows0[j]) && id_among(om.take(k + 1 as int), rows0[j].id) {
                    deleted_row(rows0[j], now0)
                } else {
                    rows0[j]
                }) by {
                    let prev = if orph(rows0[j]) && id_among(om.take(k as int), rows0[j].id) {
                        deleted_row(rows0[j], now0)
                    } else {
                        rows0[j]
                    };
                    assert(pre[j] == prev);
                    assert(store.models()[j] == (if row_live_id(pre[j], mk.id) {
                        deleted_row(pre[j], now0)
                    } else {
                        pre[j]
                    }));
                    if row_live_id(prev, mk.id) {
                        // this row was just stamped: it must be the orphan's row
                        assert(rows0[j].id == mk.id);
                        if j != jk {
                            assert(rows0[j].id != rows0[jk].id);
                        }
                        assert(j == jk);
                        assert(om.take(k + 1 as int)[k as int] == mk);
                        assert(id_among(om.take(k + 1 as int), rows0[j].id));
                    } else {
                        if j == jk {
                            assert(prev == rows0[jk]);
                            assert(row_live_id(prev, mk.id));
                        }
                        if orph(rows0[j]) && id_among(om.take(k + 1 as int), rows0[j].id)
                            && !id_among(om.take(k as int), rows0[j].id) {
                            assert forall|l: int|
                                0 <= l < k + 1 && (#[trigger] om.take(k + 1 as int)[l]).id
                                    == rows0[j].id implies l == k by {
                                if l < k {
                                    assert(om.take(k as int)[l] == om[l]);
                                }
                            }
                            assert(mk.id == rows0[j].id);
                            assert(j == jk);
                        }
                    }
                }
                assert(om.take(k + 1 as int).last() == mk);
                assert(om.take(k + 1 as int).filter(noteid) == om.take(k as int).filter(
                    noteid,
                ).push(mk));
            }
            if deleted {
                stats.record_deleted();
            }
        } else {
            proof {
                assert(!noteid(mk));
                assert(om.take(k + 1 as int).filter(noteid) == om.take(k as int).filter(noteid));
                let jk = choose|j: int| 0 <= j < rows0.len() && rows0[j] == mk;
                assert forall|j: int| 0 <= j < rows0.len() implies #[trigger] store.models()[j]
                    == (if orph(rows0[j]) && id_among(om.take(k + 1 as int), rows0[j].id) {
                    deleted_row(rows0[j], now0)
                } else {
                    rows0[j]
                }) by {
                    if orph(rows0[j]) && id_among(om.take(k + 1 as int), rows0[j].id)
                        && !id_among(om.take(k as int), rows0[j].id) {
                        assert forall|l: int|
                            0 <= l < k + 1 && (#[trigger] om.take(k + 1 as int)[l]).id
                                == rows0[j].id implies l == k by {
                            if l < k {
                                assert(om.take(k as int)[l] == om[l]);
                            }
                        }
                        assert(mk.id == rows0[j].id);
                        lemma_filter_subset(rows0, swc);
                        let w = choose|w: int| 0 <= w < rows0.len() && rows0[w] == mk;
                        if w != j {
                            assert(rows0[w].id != rows0[j].id);
                        }
                        assert(rows0[j] == mk);
                        assert(orph(mk));
                    }
                }
            }
        }
        k = k + 1;
    }
    proof {
        assert(om.take(k_max as int) =~= om);
        broadcast use vstd::seq_lib::group_filter_ensures;

        assert forall|j: int| 0 <= j < rows0.len() implies #[trigger] store.models()[j]
            == apply_sweep(rows0, source@, scope, seen@, now0)[j] by {
            if orph(rows0[j]) {
                assert(swc(rows0[j]));
                assert(rows0.filter(swc).contains(rows0[j]));
                let l = choose|l: int| 0 <= l < om.len() && om[l] == rows0[j];
                assert(id_among(om, rows0[j].id));
            }
        }
        assert(store.models() =~= apply_sweep(rows0, source@, scope, seen@, now0));
        lemma_filter_filter(rows0, swc, noteid);
        assert(om.filter(noteid) == rows0.filter(|m: RowModel| swc(m) && noteid(m)));
        lemma_filter_ptwise(rows0, |m: RowModel| swc(m) && noteid(m), orph);
    }
}

/// Whether any of these rows carries the id.
pub open spec fn id_among(ms: Seq<RowModel>, id: i32) -> bool {
    exists|l: int| 0 <= l < ms.len() && (#[trigger] ms[l]).id == id
}

/// The state and counters after one whole reconciliation of one kind:
/// the upsert pass over the candidates, then the orphan sweep against the
/// external ids the pass saw.
pub open spec fn reconcile_model(
    s: StoreModel,
    source: Seq<char>,
    scope: Option<i32>,
    cands: Seq<CandidateModel>,
) -> StoreModel {
    let s1 = run_upserts(s, source, cands);
    StoreModel {
        rows: apply_sweep(s1.rows, source, scope, eids_of(source, cands), s1.now),
        next_id: s1.next_id,
        now: s1.now,
    }
}

/// Distinct native ids give distinct namespaced external ids.
pub proof fn lemma_external_id_injective(source: Seq<char>, n1: Seq<char>, n2: Seq<char>)
    requires
        external_id_of(source, n1) == external_id_of(source, n2),
    ensures
        n1 == n2,
{
    let p = source.push(':');
    assert((p + n1).len() == (p + n2).len());
    assert(n1.len() == n2.len());
    assert forall|i: int| 0 <= i < n1.len() implies n1[i] == n2[i] by {
        assert((p + n1)[p.len() + i] == n1[i]);
        assert((p + n2)[p.len() + i] == n2[i]);
    }
    assert(n1 =~= n2);
}

/// One upsert keeps the store well-formed and never lowers the id counter.
proof fn lemma_apply_upsert_wf(s: StoreModel, source: Seq<char>, c: CandidateModel)
    requires
        model_wf(s),
        s.next_id < i32::MAX,
    ensures
        model_wf(apply_upsert(s, source, c)),
        s.next_id <= apply_upsert(s, source, c).next_id <= s.next_id + 1,
        apply_upsert(s, source, c).now == s.now,
{
    let eid = external_id_of(source, c.native_id);
    let h = hash_fields_spec(c.fields);
    let s2 = apply_upsert(s, source, c);
    match find_live(s.rows, eid) {
        None => {
            let last = s.rows.len() as int;
            assert(forall|k: int| 0 <= k < last ==> #[trigger] s2.rows[k] == s.rows[k]);
            assert(s2.rows[last].id == s.next_id);
            assert forall|i: int|
                0 <= i < s2.rows.len() implies 1 <= (#[trigger] s2.rows[i]).id < s2.next_id by {
                if i < last {
                    assert(s2.rows[i] == s.rows[i]);
                }
            }
            assert forall|i: int, j: int|
                #![trigger s2.rows[i], s2.rows[j]]
                0 <= i < s2.rows.len() && 0 <= j < s2.rows.len() && i != j implies s2.rows[i].id
                != s2.rows[j].id by {
                if i == last || j == last {
                    let k = if i == last {
                        j
                    } else {
                        i
                    };
                    assert(s2.rows[k] == s.rows[k]);
                    assert(s.rows[k].id < s.next_id);
                }
            }
            assert forall|i: int, j: int|
                #![trigger s2.rows[i], s2.rows[j]]
                0 <= i < s2.rows.len() && 0 <= j < s2.rows.len() && i != j && is_live(s2.rows[i])
                    && is_live(s2.rows[j]) && s2.rows[i].external_id is Some implies s2.rows[i].external_id
                != s2.rows[j].external_id by {
                if i == last || j == last {
                    let k = if i == last {
                        j
                    } else {
                        i
                    };
                    assert(s2.rows[k] == s.rows[k]);
                    assert(!row_live_eid(s.rows[k], eid));
                }
            }
        },
        Some(i) => {
            if s.rows[i].content_hash == Some(h) {
            } else {
                assert(forall|k: int|
                    0 <= k < s2.rows.len() ==> (#[trigger] s2.rows[k]).id == s.rows[k].id
                        && s2.rows[k].external_id == s.rows[k].external_id && s2.rows[k].deleted_at
                        == s.rows[k].deleted_at);
                assert forall|a: int, b: int|
                    #![trigger s2.rows[a], s2.rows[b]]
                    0 <= a < s2.rows.len() && 0 <= b < s2.rows.len() && a != b && is_live(
                        s2.rows[a],
                    ) && is_live(s2.rows[b]) && s2.rows[a].external_id is Some implies s2.rows[a].external_id
                    != s2.rows[b].external_id by {
                    assert(is_live(s.rows[a]) && is_live(s.rows[b]));
                }
            }
        },
    }
}

/// A live row with this external id carrying this fingerprint exists.
pub open spec fn has_live_hash(rows: Seq<RowModel>, eid: Seq<char>, h: Seq<char>) -> bool {
    exists|i: int|
        0 <= i < rows.len() && row_live_eid(#[trigger] rows[i], eid) && rows[i].content_hash
            == Some(h)
}

/// After its own upsert, a candidate's row is live and carries its fingerprint.
proof fn lemma_apply_upsert_self(s: StoreModel, source: Seq<char>, c: CandidateModel)
    requires
        model_wf(s),
    ensures
        has_live_hash(
            apply_upsert(s, source, c).rows,
            external_id_of(source, c.native_id),
            hash_fields_spec(c.fields),
        ),
{
    let eid = external_id_of(source, c.native_id);
    let h = hash_fields_spec(c.fields);
    let s2 = apply_upsert(s, source, c);
    match find_live(s.rows, eid) {
        None => {
            let last = s.rows.len() as int;
            assert(row_live_eid(s2.rows[last], eid) && s2.rows[last].content_hash == Some(h));
        },
        Some(i) => {
            if s.rows[i].content_hash == Some(h) {
                assert(row_live_eid(s2.rows[i], eid) && s2.rows[i].content_hash == Some(h));
            } else {
                assert(row_live_eid(s2.rows[i], eid) && s2.rows[i].content_hash == Some(h));
            }
        },
    }
}

/// An upsert of one candidate leaves any other external id's row alone.
proof fn lemma_apply_upsert_other(
    s: StoreModel,
    source: Seq<char>,
    c: CandidateModel,
    eid: Seq<char>,
    h: Seq<char>,
)
    requires
        model_wf(s),
        has_live_hash(s.rows, eid, h),
        eid != external_id_of(source, c.native_id),
    ensures
        has_live_hash(apply_upsert(s, source, c).rows, eid, h),
{
    let ceid = external_id_of(source, c.native_id);
    let ch = hash_fields_spec(c.fields);
    let s2 = apply_upsert(s, source, c);
    let w = choose|i: int|
        0 <= i < s.rows.len() && row_live_eid(#[trigger] s.rows[i], eid) && s.rows[i].content_hash
            == Some(h);
    match find_live(s.rows, ceid) {
        None => {
            assert(s2.rows[w] == s.rows[w]);
        },
        Some(i) => {
            if s.rows[i].content_hash == Some(ch) {
            } else {
                assert(s.rows[i].external_id == Some(ceid));
                assert(w != i);
                assert(s2.rows[w] == s.rows[w]);
            }
        },
    }
}

/// A whole pass keeps the store well-formed.
proof fn lemma_run_upserts_wf(s: StoreModel, source: Seq<char>, cands: Seq<CandidateModel>)
    requires
        model_wf(s),
        s.next_id + cands.len() <= i32::MAX,
    ensures
        model_wf(run_upserts(s, source, cands)),
        s.next_id <= run_upserts(s, source, cands).next_id <= s.next_id + cands.len(),
        run_upserts(s, source, cands).now == s.now,
    decreases cands.len(),
{
    if cands.len() > 0 {
        lemma_run_upserts_wf(s, source, cands.drop_last());
        lemma_apply_upsert_wf(run_upserts(s, source, cands.drop_last()), source, cands.last());
    }
}

/// Whether the native ids in a batch are pairwise distinct.
pub open spec fn distinct_native_ids(cands: Seq<CandidateModel>) -> bool {
    forall|i: int, j: int|
        #![trigger cands[i], cands[j]]
        0 <= i < cands.len() && 0 <= j < cands.len() && i != j ==> cands[i].native_id
            != cands[j].native_id
}

/// After a pass over a batch with distinct native ids, every candidate's row
/// is live and carries the candidate's fingerprint.
proof fn lemma_run_upserts_all_present(s: StoreModel, source: Seq<char>, cands: Seq<CandidateModel>)
    requires
        model_wf(s),
        s.next_id + cands.len() <= i32::MAX,
        distinct_native_ids(cands),
    ensures
        forall|k: int|
            0 <= k < cands.len() ==> has_live_hash(
                run_upserts(s, source, cands).rows,
                external_id_of(source, (#[trigger] cands[k]).native_id),
                hash_fields_spec(cands[k].fields),
            ),
    decreases cands.len(),
{
    if cands.len() > 0 {
        let prefix = cands.drop_last();
        let s1 = run_upserts(s, source, prefix);
        let last = cands.last();
        assert(distinct_native_ids(prefix)) by {
            assert(forall|i: int| 0 <= i < prefix.len() ==> #[trigger] prefix[i] == cands[i]);
        }
        lemma_run_upserts_all_present(s, source, prefix);
        lemma_run_upserts_wf(s, source, prefix);
        lemma_apply_upsert_self(s1, source, last);
        assert forall|k: int| 0 <= k < cands.len() implies has_live_hash(
            run_upserts(s, source, cands).rows,
            external_id_of(source, (#[trigger] cands[k]).native_id),
            hash_fields_spec(cands[k].fields),
        ) by {
            if k < cands.len() - 1 {
                assert(prefix[k] == cands[k]);
                assert(has_live_hash(
                    s1.rows,
                    external_id_of(source, cands[k].native_id),
                    hash_fields_spec(cands[k].fields),
                ));
                if external_id_of(source, cands[k].native_id) == external_id_of(
                    source,
                    last.native_id,
                ) {
                    lemma_external_id_injective(source, cands[k].native_id, last.native_id);
                    assert(cands[k].native_id == cands[cands.len() - 1].native_id);
                    assert(false);
                }
                lemma_apply_upsert_other(
                    s1,
                    source,
                    last,
                    external_id_of(source, cands[k].native_id),
                    hash_fields_spec(cands[k].fields),
                );
            } else {
                assert(cands[k] == last);
            }
        }
    }
}

/// Against a store that already carries a candidate's fingerprint under its
/// external id, the upsert is classified Unchanged and writes nothing.
proof fn lemma_upsert_class_unchanged(s: StoreModel, source: Seq<char>, c: CandidateModel)
    requires
        model_wf(s),
        has_live_hash(s.rows, external_id_of(source, c.native_id), hash_fields_spec(c.fields)),
    ensures
        upsert_class(s, source, c) == SyncClass::Unchanged,
        apply_upsert(s, source, c) == s,
{
    let eid = external_id_of(source, c.native_id);
    let h = hash_fields_spec(c.fields);
    let w = choose|i: int|
        0 <= i < s.rows.len() && row_live_eid(#[trigger] s.rows[i], eid) && s.rows[i].content_hash
            == Some(h);
    assert(find_live(s.rows, eid) is Some);
    let i = find_live(s.rows, eid)->0;
    assert(row_live_eid(s.rows[i], eid));
    if i != w {
        assert(s.rows[i].external_id != s.rows[w].external_id);
    }
    assert(s.rows[i].content_hash == Some(h));
}

/// A second pass over a batch whose rows are all present and unchanged
/// classifies everything Unchanged and leaves the store as it stands.
proof fn lemma_run_upserts_stable(s: StoreModel, source: Seq<char>, cands: Seq<CandidateModel>)
    requires
        model_wf(s),
        forall|k: int|
            0 <= k < cands.len() ==> has_live_hash(
                s.rows,
                external_id_of(source, (#[trigger] cands[k]).native_id),
                hash_fields_spec(cands[k].fields),
            ),
    ensures
        run_upserts(s, source, cands) == s,
        upsert_counts(s, source, cands) == (Counts {
            created: 0,
            updated: 0,
            unchanged: cands.len() as int,
        }),
    decreases cands.len(),
{
    if cands.len() == 0 {
    } else {
        let prefix = cands.drop_last();
        assert(forall|k: int| 0 <= k < prefix.len() ==> #[trigger] prefix[k] == cands[k]);
        lemma_run_upserts_stable(s, source, prefix);
        assert(cands.last() == cands[cands.len() - 1]);
        lemma_upsert_class_unchanged(s, source, cands.last());
    }
}

/// The sweep keeps the store well-formed: it only stamps deletion markers.
proof fn lemma_sweep_wf(
    s: StoreModel,
    source: Seq<char>,
    scope: Option<i32>,
    seen: Set<Seq<char>>,
)
    requires
        model_wf(s),
    ensures
        model_wf(
            StoreModel {
                rows: apply_sweep(s.rows, source, scope, seen, s.now),
                next_id: s.next_id,
                now: s.now,
            },
        ),
{
    let rows2 = apply_sweep(s.rows, source, scope, seen, s.now);
    assert forall|i: int, j: int|
        #![trigger rows2[i], rows2[j]]
        0 <= i < rows2.len() && 0 <= j < rows2.len() && i != j && is_live(rows2[i]) && is_live(
            rows2[j],
        ) && rows2[i].external_id is Some implies rows2[i].external_id != rows2[j].external_id by {
        assert(is_live(s.rows[i]) && is_live(s.rows[j]));
        assert(rows2[i].external_id == s.rows[i].external_id);
        assert(rows2[j].external_id == s.rows[j].external_id);
    }
}

/// A row whose external id the pass saw survives the sweep with its
/// fingerprint.
proof fn lemma_sweep_preserves_seen(
    rows: Seq<RowModel>,
    source: Seq<char>,
    scope: Option<i32>,
    seen: Set<Seq<char>>,
    now: Seq<char>,
    eid: Seq<char>,
    h: Seq<char>,
)
    requires
        has_live_hash(rows, eid, h),
        seen.contains(eid),
    ensures
        has_live_hash(apply_sweep(rows, source, scope, seen, now), eid, h),
{
    let w = choose|i: int|
        0 <= i < rows.len() && row_live_eid(#[trigger] rows[i], eid) && rows[i].content_hash
            == Some(h);
    let rows2 = apply_sweep(rows, source, scope, seen, now);
    assert(!orphan_pred(rows[w], source, scope, seen));
    assert(rows2[w] == rows[w]);
}

/// No element satisfies the predicate: the filter is empty.
proof fn lemma_filter_none(rows: Seq<RowModel>, pred: spec_fn(RowModel) -> bool)
    requires
        forall|i: int| 0 <= i < rows.len() ==> !pred(#[trigger] rows[i]),
    ensures
        rows.filter(pred).len() == 0,
    decreases rows.len(),
{
    reveal(Seq::filter);
    if rows.len() > 0 {
        let prefix = rows.drop_last();
        assert(forall|i: int| 0 <= i < prefix.len() ==> #[trigger] prefix[i] == rows[i]);
        lemma_filter_none(prefix, pred);
    }
}

/// Sweeping what a sweep already swept changes nothing and deletes nothing.
proof fn lemma_sweep_idempotent(
    rows: Seq<RowModel>,
    source: Seq<char>,
    scope: Option<i32>,
    seen: Set<Seq<char>>,
    now: Seq<char>,
    now2: Seq<char>,
)
    ensures
        apply_sweep(apply_sweep(rows, source, scope, seen, now), source, scope, seen, now2)
            == apply_sweep(rows, source, scope, seen, now),
        sweep_count(apply_sweep(rows, source, scope, seen, now), source, scope, seen) == 0,
{
    let rows2 = apply_sweep(rows, source, scope, seen, now);
    assert forall|j: int| 0 <= j < rows2.len() implies !orphan_pred(
        #[trigger] rows2[j],
        source,
        scope,
        seen,
    ) by {
        if orphan_pred(rows[j], source, scope, seen) {
            assert(rows2[j] == deleted_row(rows[j], now));
        } else {
            assert(rows2[j] == rows[j]);
        }
    }
    lemma_filter_none(rows2, |m: RowModel| orphan_pred(m, source, scope, seen));
    assert(apply_sweep(rows2, source, scope, seen, now2) =~= rows2);
}

/// Idempotence of reconciliation: running one kind's reconciliation twice
/// over the same batch — same source, same scope, distinct native ids —
/// classifies every candidate Unchanged on the second run, creates, updates
/// and deletes nothing, and leaves the store exactly as the first run left
/// it.
pub proof fn lemma_reconcile_idempotent(
    s0: StoreModel,
    source: Seq<char>,
    scope: Option<i32>,
    cands: Seq<CandidateModel>,
)
    requires
        model_wf(s0),
        s0.next_id + cands.len() <= i32::MAX,
        distinct_native_ids(cands),
    ensures
        ({
            let s1 = reconcile_model(s0, source, scope, cands);
            let c2 = upsert_counts(s1, source, cands);
            &&& reconcile_model(s1, source, scope, cands) == s1
            &&& c2.created == 0
            &&& c2.updated == 0
            &&& c2.unchanged == cands.len()
            &&& sweep_count(
                run_upserts(s1, source, cands).rows,
                source,
                scope,
                eids_of(source, cands),
            ) == 0
        }),
{
    let seen = eids_of(source, cands);
    let sup = run_upserts(s0, source, cands);
    let s1 = reconcile_model(s0, source, scope, cands);
    lemma_run_upserts_wf(s0, source, cands);
    lemma_run_upserts_all_present(s0, source, cands);
    lemma_sweep_wf(sup, source, scope, seen);
    assert(model_wf(s1));
    assert forall|k: int| 0 <= k < cands.len() implies has_live_hash(
        s1.rows,
        external_id_of(source, (#[trigger] cands[k]).native_id),
        hash_fields_spec(cands[k].fields),
    ) by {
        assert(seen.contains(external_id_of(source, cands[k].native_id)));
        lemma_sweep_preserves_seen(
            sup.rows,
            source,
            scope,
            seen,
            sup.now,
            external_id_of(source, cands[k].native_id),
            hash_fields_spec(cands[k].fields),
        );
    }
    lemma_run_upserts_stable(s1, source, cands);
    lemma_sweep_idempotent(sup.rows, source, scope, seen, sup.now, s1.now);
    assert(reconcile_model(s1, source, scope, cands) =~= s1);
}

/// Orphan correctness: a live record of the source, not scoped out, is
/// soft-deleted by the sweep exactly when the pass did not see its external
/// id; when the pass saw it, the record survives untouched.
pub proof fn lemma_orphan_correctness(
    rows: Seq<RowModel>,
    source: Seq<char>,
    scope: Option<i32>,
    seen: Set<Seq<char>>,
    now: Seq<char>,
    j: int,
)
    requires
        0 <= j < rows.len(),
        sweep_candidate(rows[j], source, scope),
    ensures
        !seen.contains(rows[j].external_id->0) ==> apply_sweep(rows, source, scope, seen, now)[j]
            == deleted_row(rows[j], now),
        seen.contains(rows[j].external_id->0) ==> apply_sweep(rows, source, scope, seen, now)[j]
            == rows[j],
{
}

/// Scope containment: a scoped sweep never touches a live record whose
/// parent lies outside the scope, even when it shares the source prefix.
pub proof fn lemma_scope_containment(
    rows: Seq<RowModel>,
    source: Seq<char>,
    parent: i32,
    seen: Set<Seq<char>>,
    now: Seq<char>,
    j: int,
)
    requires
        0 <= j < rows.len(),
        rows[j].parent != Some(parent),
    ensures
        apply_sweep(rows, source, Some(parent), seen, now)[j] == rows[j],
{
}

/// Reconciles one entity kind: upserts the batch, then sweeps the source's
/// orphans, under a fresh seen set, and returns the aggregated counters.
pub fn reconcile_kind(
    store: &mut EntityStore,
    source: &str,
    scope: Option<i32>,
    cands: &Vec<Candidate>,
) -> (stats: SyncStats)
    requires
        old(store).wf(),
        old(store).next_id + cands@.len() <= i32::MAX,
        old(store).models().len() + cands@.len() <= i32::MAX,
    ensures
        final(store).wf(),
        store_model(*final(store)) == reconcile_model(
            store_model(*old(store)),
            source@,
            scope,
            cands_view(cands@),
        ),
        ({
            let c = upsert_counts(store_model(*old(store)), source@, cands_view(cands@));
            let d = sweep_count(
                run_upserts(store_model(*old(store)), source@, cands_view(cands@)).rows,
                source@,
                scope,
                eids_of(source@, cands_view(cands@)),
            );
            stats == (SyncStats {
                created: c.created as i32,
                updated: c.updated as i32,
                unchanged: c.unchanged as i32,
                deleted: d as i32,
                errors: 0,
            })
        }),
{
    let ghost m0 = store_model(*old(store));
    let ghost cv = cands_view(cands@);
    let mut stats = SyncStats::new();
    let mut seen = SeenSet::new();
    proof {
        lemma_upsert_counts_bounded(m0, source@, cv);
    }
    upsert_all(store, source, cands, &mut seen, &mut stats);
    proof {
        assert(seen@ =~= eids_of(source@, cv));
        let c = upsert_counts(m0, source@, cv);
        assert(store.models().len() <= old(store).models().len() + cv.len()) by {
            lemma_run_upserts_len(m0, source@, cv);
        }
        store.models().lemma_filter_len(
            |m: RowModel| orphan_pred(m, source@, scope, eids_of(source@, cv)),
        );
    }
    sweep_orphans(store, source, scope, &seen, &mut stats);
    stats
}

/// A pass grows the store by at most one row per candidate.
pub proof fn lemma_run_upserts_len(s: StoreModel, source: Seq<char>, cands: Seq<CandidateModel>)
    ensures
        run_upserts(s, source, cands).rows.len() <= s.rows.len() + cands.len(),
    decreases cands.len(),
{
    if cands.len() > 0 {
        lemma_run_upserts_len(s, source, cands.drop_last());
    }
}

/// A pass over shaped candidates keeps every row's kind shape and parent
/// integrity; the sweep cannot break them either.
pub proof fn lemma_run_upserts_shaped(
    s: StoreModel,
    source: Seq<char>,
    cands: Seq<CandidateModel>,
    pf: spec_fn(Seq<Option<Seq<char>>>) -> bool,
    pp: spec_fn(Option<i32>) -> bool,
    pa: spec_fn(Option<Seq<char>>) -> bool,
)
    requires
        forall|j: int|
            0 <= j < s.rows.len() ==> pf((#[trigger] s.rows[j]).fields) && pp(s.rows[j].parent)
                && pa(s.rows[j].aux),
        forall|k: int|
            0 <= k < cands.len() ==> pf((#[trigger] cands[k]).fields) && pp(cands[k].parent) && pa(
                cands[k].aux,
            ),
    ensures
        forall|j: int|
            0 <= j < run_upserts(s, source, cands).rows.len() ==> pf(
                (#[trigger] run_upserts(s, source, cands).rows[j]).fields,
            ) && pp(run_upserts(s, source, cands).rows[j].parent) && pa(
                run_upserts(s, source, cands).rows[j].aux,
            ),
    decreases cands.len(),
{
    if cands.len() > 0 {
        let prefix = cands.drop_last();
        assert(forall|k: int| 0 <= k < prefix.len() ==> #[trigger] prefix[k] == cands[k]);
        lemma_run_upserts_shaped(s, source, prefix, pf, pp, pa);
        let s1 = run_upserts(s, source, prefix);
        let c = cands.last();
        let s2 = run_upserts(s, source, cands);
        let eid = external_id_of(source, c.native_id);
        match find_live(s1.rows, eid) {
            None => {
                let last = s1.rows.len() as int;
                assert forall|j: int| 0 <= j < s2.rows.len() implies pf(
                    (#[trigger] s2.rows[j]).fields,
                ) && pp(s2.rows[j].parent) && pa(s2.rows[j].aux) by {
                    if j < last {
                        assert(s2.rows[j] == s1.rows[j]);
                    }
                }
            },
            Some(i) => {
                if s1.rows[i].content_hash == Some(crate::hash::hash_fields_spec(c.fields)) {
                } else {
                    assert forall|j: int| 0 <= j < s2.rows.len() implies pf(
                        (#[trigger] s2.rows[j]).fields,
                    ) && pp(s2.rows[j].parent) && pa(s2.rows[j].aux) by {
                        if j != i {
                            assert(s2.rows[j] == s1.rows[j]);
                        }
                    }
                }
            },
        }
    }
}

/// The sweep changes no row's fields, parent, payload or id.
pub proof fn lemma_sweep_keeps_content(
    rows: Seq<RowModel>,
    source: Seq<char>,
    scope: Option<i32>,
    seen: Set<Seq<char>>,
    now: Seq<char>,
)
    ensures
        apply_sweep(rows, source, scope, seen, now).len() == rows.len(),
        forall|j: int|
            0 <= j < rows.len() ==> {
                let m2 = #[trigger] apply_sweep(rows, source, scope, seen, now)[j];
                m2.fields == rows[j].fields && m2.parent == rows[j].parent && m2.aux == rows[j].aux
                    && m2.id == rows[j].id
            },
{
}


/// Ids present in a store survive an upsert pass: rows are appended or
/// rewritten in place, never removed.
pub proof fn lemma_run_upserts_ids(s: StoreModel, source: Seq<char>, cands: Seq<CandidateModel>, q: i32)
    requires
        id_among(s.rows, q),
    ensures
        id_among(run_upserts(s, source, cands).rows, q),
    decreases cands.len(),
{
    if cands.len() > 0 {
        lemma_run_upserts_ids(s, source, cands.drop_last(), q);
        let s1 = run_upserts(s, source, cands.drop_last());
        let c = cands.last();
        let s2 = run_upserts(s, source, cands);
        let w = choose|l: int| 0 <= l < s1.rows.len() && (#[trigger] s1.rows[l]).id == q;
        let eid = external_id_of(source, c.native_id);
        match find_live(s1.rows, eid) {
            None => {
                assert(s2.rows[w] == s1.rows[w]);
            },
            Some(i) => {
                if s1.rows[i].content_hash == Some(hash_fields_spec(c.fields)) {
                } else {
                    assert(s2.rows[w].id == s1.rows[w].id);
                }
            },
        }
    }
}

/// After a pass, every candidate's external id names a live row.
pub proof fn lemma_run_upserts_eids_live(s: StoreModel, source: Seq<char>, cands: Seq<CandidateModel>)
    requires
        model_wf(s),
        s.next_id + cands.len() <= i32::MAX,
    ensures
        forall|k: int|
            0 <= k < cands.len() ==> exists|i: int|
                0 <= i < run_upserts(s, source, cands).rows.len() && row_live_eid(
                    #[trigger] run_upserts(s, source, cands).rows[i],
                    external_id_of(source, (#[trigger] cands[k]).native_id),
                ),
    decreases cands.len(),
{
    if cands.len() > 0 {
        let prefix = cands.drop_last();
        assert(forall|k: int| 0 <= k < prefix.len() ==> #[trigger] prefix[k] == cands[k]);
        lemma_run_upserts_eids_live(s, source, prefix);
        lemma_run_upserts_wf(s, source, prefix);
        let s1 = run_upserts(s, source, prefix);
        let c = cands.last();
        let s2 = run_upserts(s, source, cands);
        assert(s2 == apply_upsert(s1, source, c));
        lemma_apply_upsert_self(s1, source, c);
        assert forall|k: int| 0 <= k < cands.len() implies exists|i: int|
            0 <= i < s2.rows.len() && row_live_eid(
                #[trigger] s2.rows[i],
                external_id_of(source, (#[trigger] cands[k]).native_id),
            ) by {
            let eid = external_id_of(source, cands[k].native_id);
            if k == cands.len() - 1 {
                let w = choose|i: int|
                    0 <= i < s2.rows.len() && row_live_eid(#[trigger] s2.rows[i], eid)
                        && s2.rows[i].content_hash == Some(hash_fields_spec(c.fields));
                assert(row_live_eid(s2.rows[w], eid));
            } else {
                assert(prefix[k] == cands[k]);
                let w = choose|i: int|
                    0 <= i < s1.rows.len() && row_live_eid(#[trigger] s1.rows[i], eid);
                let ceid = external_id_of(source, c.native_id);
                assert(0 <= w < s1.rows.len() && row_live_eid(s1.rows[w], eid));
                match find_live(s1.rows, ceid) {
                    None => {
                        assert(s2.rows.len() == s1.rows.len() + 1);
                        assert(s2.rows[w] == s1.rows[w]);
                        assert(row_live_eid(s2.rows[w], eid));
                    },
                    Some(i) => {
                        if s1.rows[i].content_hash == Some(hash_fields_spec(c.fields)) {
                            assert(s2 == s1);
                            assert(row_live_eid(s2.rows[w], eid));
                        } else {
                            assert(s2.rows.len() == s1.rows.len());
                            if w != i {
                                assert(s2.rows[w] == s1.rows[w]);
                            } else {
                                assert(s2.rows[w] == updated_row(
                                    s1.rows[i],
                                    c.fields,
                                    Some(hash_fields_spec(c.fields)),
                                    c.aux,
                                    s1.now,
                                ));
                            }
                            assert(s2.rows[w].external_id == s1.rows[w].external_id);
                            assert(s2.rows[w].deleted_at == s1.rows[w].deleted_at);
                            assert(row_live_eid(s2.rows[w], eid));
                        }
                    },
                }
            }
        }
    }
}

} // verus!
