//! Sync of browser-extension highlights into the catalog.
//!
//! A batch arrives keyed by URL.  Each URL is resolved to a resource by
//! title, created as a website resource when missing; every highlight is
//! upserted as an annotation under that resource, keyed by the namespaced
//! group id; afterwards one orphan sweep soft-deletes the source's
//! annotations the batch no longer carries.  An optional scope restricts the
//! sweep to one resource's annotations; a scope that resolves to no resource
//! skips the sweep entirely.
use vstd::prelude::*;

use crate::commonplace::{annotation_row_shape, resource_row_shape, Catalog};
use crate::hash::{fields_view, resource_hash};
use crate::numfmt::dec_i64;
use crate::reconcile::{
    apply_sweep, cands_view, eids_of, id_among, run_upserts, store_model, sweep_count,
    upsert_all, upsert_counts, Candidate, CandidateModel, SeenSet, StoreModel,
};
use crate::store::{
    created_row, first_live_title, lemma_first_live_title, opt_view, EntityStore, RowModel,
};
use crate::sync::SyncStats;

verus! {

/// One highlight as the extension stores it.
pub struct LightHighlight {
    pub chunks: Vec<String>,
    pub date: String,
    pub group_id: i64,
    pub repr: String,
    pub url: String,
}

/// A highlight together with the boundary payload the caller rendered from
/// it; the store persists the payload opaquely alongside the annotation.
pub struct HighlightRecord {
    pub highlight: LightHighlight,
    pub boundary: Option<String>,
}

/// The highlights of one URL.
pub struct UrlHighlights {
    pub url: String,
    pub records: Vec<HighlightRecord>,
}

/// One sync request: the source name, an optional scope URL, and the
/// highlights keyed by URL.
pub struct SyncRequest {
    pub source: String,
    pub scope: Option<String>,
    pub highlights: Vec<UrlHighlights>,
}

/// The per-kind counters the sync answers with.
pub struct SyncResponse {
    pub resources_created: i32,
    pub annotations_created: i32,
    pub annotations_updated: i32,
    pub annotations_deleted: i32,
    pub annotations_unchanged: i32,
}

/// The mathematical content of one highlight record.
pub ghost struct RecordModel {
    pub group_id: i64,
    pub repr: Seq<char>,
    pub boundary: Option<Seq<char>>,
}

impl View for HighlightRecord {
    type V = RecordModel;

    open spec fn view(&self) -> RecordModel {
        RecordModel {
            group_id: self.highlight.group_id,
            repr: self.highlight.repr@,
            boundary: opt_view(self.boundary),
        }
    }
}

/// The mathematical content of one URL's batch.
pub ghost struct UrlModel {
    pub url: Seq<char>,
    pub records: Seq<RecordModel>,
}

impl View for UrlHighlights {
    type V = UrlModel;

    open spec fn view(&self) -> UrlModel {
        UrlModel {
            url: self.url@,
            records: self.records@.map_values(|r: HighlightRecord| r@),
        }
    }
}

/// The models of a whole batch.
pub open spec fn urls_view(v: Seq<UrlHighlights>) -> Seq<UrlModel> {
    v.map_values(|u: UrlHighlights| u@)
}

/// The annotation candidate one highlight becomes under its resource.
pub open spec fn highlight_cand(m: RecordModel, rid: i32) -> CandidateModel {
    CandidateModel {
        native_id: dec_i64(m.group_id as int),
        parent: Some(rid),
        fields: seq![Some(m.repr), Some("yellow"@)],
        aux: m.boundary,
    }
}

/// The candidates of one URL's records.
pub open spec fn url_cands(records: Seq<RecordModel>, rid: i32) -> Seq<CandidateModel> {
    records.map_values(|m: RecordModel| highlight_cand(m, rid))
}

/// Resolving one URL: the first live resource with that title, or a fresh
/// website resource whose content hash fingerprints the URL.
pub open spec fn resolve_url(rs: StoreModel, url: Seq<char>) -> (StoreModel, i32, int) {
    match first_live_title(rs.rows, url) {
        Some(i) => (rs, rs.rows[i].id, 0),
        None => (
            StoreModel {
                rows: rs.rows.push(
                    created_row(
                        rs.next_id as i32,
                        None,
                        None,
                        Some(resource_hash(url)),
                        seq![Some(url)],
                        Some("website"@),
                        rs.now,
                    ),
                ),
                next_id: rs.next_id + 1,
                now: rs.now,
            },
            rs.next_id as i32,
            1,
        ),
    }
}

/// Resolving a whole batch's URLs, in order: the final resource store, the
/// resource id of each URL, and how many resources were created.
pub open spec fn resolve_urls(rs: StoreModel, urls: Seq<UrlModel>) -> (StoreModel, Seq<i32>, int)
    decreases urls.len(),
{
    if urls.len() == 0 {
        (rs, Seq::<i32>::empty(), 0)
    } else {
        let (rs1, ids, c) = resolve_urls(rs, urls.drop_last());
        let (rs2, id, d) = resolve_url(rs1, urls.last().url);
        (rs2, ids.push(id), c + d)
    }
}

/// All annotation candidates of a batch, under the resolved resource ids.
pub open spec fn light_cands(urls: Seq<UrlModel>, rids: Seq<i32>) -> Seq<CandidateModel>
    decreases urls.len(),
{
    if urls.len() == 0 {
        Seq::<CandidateModel>::empty()
    } else {
        light_cands(urls.drop_last(), rids.drop_last()) + url_cands(
            urls.last().records,
            rids[urls.len() - 1],
        )
    }
}

/// How many highlight records a batch carries in all.
pub open spec fn total_records(urls: Seq<UrlModel>) -> int
    decreases urls.len(),
{
    if urls.len() == 0 {
        0
    } else {
        total_records(urls.drop_last()) + urls.last().records.len()
    }
}

/// How the sweep is scoped: unscoped, to one resource, or skipped because
/// the scope URL resolved to no resource.
pub open spec fn scope_plan(rows: Seq<RowModel>, scope: Option<Seq<char>>) -> Option<Option<i32>> {
    match scope {
        None => Some(None),
        Some(url) => match first_live_title(rows, url) {
            Some(i) => Some(Some(rows[i].id)),
            None => None,
        },
    }
}

/// Resolves one URL against the resource store, creating a website resource
/// on a miss.  Returns the resource id and whether it was created.
pub fn find_or_create_resource(store: &mut EntityStore, url: &str) -> (r: (i32, bool))
    requires
        old(store).wf(),
        old(store).next_id < i32::MAX,
        forall|i: int|
            0 <= i < old(store).models().len() ==> resource_row_shape(
                #[trigger] old(store).models()[i],
            ),
    ensures
        final(store).wf(),
        forall|i: int|
            0 <= i < final(store).models().len() ==> resource_row_shape(
                #[trigger] final(store).models()[i],
            ),
        ({
            let (rs2, id, c) = resolve_url(store_model(*old(store)), url@);
            &&& store_model(*final(store)) == rs2
            &&& r.0 == id
            &&& r.1 <==> c == 1
        }),
        final(store).now == old(store).now,
{
    let found = store.find_by_first_field(url);
    match found {
        Some(row) => (row.id, false),
        None => {
            let h = crate::hash::compute_resource_hash(url);
            let mut fields: Vec<Option<String>> = Vec::new();
            fields.push(Some(String::from_str(url)));
            proof {
                assert(fields_view(fields@) =~= seq![Some(url@)]);
            }
            let created = store.create(
                None,
                fields,
                None,
                Some(h),
                Some(String::from_str("website")),
            );
            match created {
                Ok(id) => {
                    proof {
                        let (rs2, sid, c) = resolve_url(store_model(*old(store)), url@);
                        assert(store_model(*store).rows =~= rs2.rows);
                        let last = old(store).models().len() as int;
                        assert forall|i: int|
                            0 <= i < store.models().len() implies resource_row_shape(
                            #[trigger] store.models()[i],
                        ) by {
                            if i < last {
                                assert(store.models()[i] == old(store).models()[i]);
                            } else {
                                assert(store.models()[i].fields =~= seq![Some(url@)]);
                            }
                        }
                    }
                    (id, true)
                },
                Err(_) => {
                    proof {
                        assert(false);
                    }
                    (0, false)
                },
            }
        },
    }
}

/// Ids present in a store survive a URL resolution pass.
proof fn lemma_resolve_urls_ids(rs: StoreModel, urls: Seq<UrlModel>, q: i32)
    requires
        id_among(rs.rows, q),
    ensures
        id_among(resolve_urls(rs, urls).0.rows, q),
    decreases urls.len(),
{
    if urls.len() > 0 {
        lemma_resolve_urls_ids(rs, urls.drop_last(), q);
        let (rs1, ids, c) = resolve_urls(rs, urls.drop_last());
        match first_live_title(rs1.rows, urls.last().url) {
            Some(_) => {},
            None => {
                let w = choose|l: int| 0 <= l < rs1.rows.len() && (#[trigger] rs1.rows[l]).id == q;
                assert(resolve_urls(rs, urls).0.rows[w] == rs1.rows[w]);
            },
        }
    }
}

/// Every resolved resource id names a row of the final resource store.
proof fn lemma_resolve_urls_rids(rs: StoreModel, urls: Seq<UrlModel>)
    ensures
        ({
            let (rs1, rids, c) = resolve_urls(rs, urls);
            &&& rids.len() == urls.len()
            &&& forall|k: int| 0 <= k < urls.len() ==> id_among(rs1.rows, #[trigger] rids[k])
        }),
    decreases urls.len(),
{
    if urls.len() > 0 {
        let prefix = urls.drop_last();
        lemma_resolve_urls_rids(rs, prefix);
        let (rs1, ids, c) = resolve_urls(rs, prefix);
        let (rs2, id, d) = resolve_url(rs1, urls.last().url);
        let (rsf, rids, cf) = resolve_urls(rs, urls);
        assert(rsf == rs2 && rids == ids.push(id));
        lemma_first_live_title(rs1.rows, urls.last().url);
        match first_live_title(rs1.rows, urls.last().url) {
            Some(i) => {
                assert(id_among(rs2.rows, id)) by {
                    assert(rs2.rows[i].id == id);
                }
            },
            None => {
                let last = rs1.rows.len() as int;
                assert(rs2.rows[last].id == id);
            },
        }
        assert forall|k: int| 0 <= k < urls.len() implies id_among(
            rsf.rows,
            #[trigger] rids[k],
        ) by {
            if k < urls.len() - 1 {
                assert(rids[k] == ids[k]);
                assert(id_among(rs1.rows, ids[k]));
                match first_live_title(rs1.rows, urls.last().url) {
                    Some(_) => {},
                    None => {
                        let w = choose|l: int|
                            0 <= l < rs1.rows.len() && (#[trigger] rs1.rows[l]).id == ids[k];
                        assert(rs2.rows[w] == rs1.rows[w]);
                    },
                }
            }
        }
    }
}

/// Synchronizes one batch of extension highlights into the catalog: URL by
/// URL the resource is found by title or created, every highlight is
/// upserted as an annotation under it, and one orphan sweep (scoped, or
/// skipped when the scope resolves to nothing) soft-deletes what the batch
/// no longer carries.  Comments and notes are untouched.
pub fn sync_highlights(catalog: &mut Catalog, req: &SyncRequest) -> (resp: SyncResponse)
    requires
        old(catalog).wf(),
        old(catalog).integrity(),
        old(catalog).resources.next_id + req.highlights@.len() <= i32::MAX,
        old(catalog).annotations.next_id + total_records(urls_view(req.highlights@)) <= i32::MAX,
        old(catalog).annotations.models().len() + total_records(urls_view(req.highlights@))
            <= i32::MAX,
    ensures
        final(catalog).wf(),
        final(catalog).integrity(),
        final(catalog).comments == old(catalog).comments,
        final(catalog).notes == old(catalog).notes,
        ({
            let uv = urls_view(req.highlights@);
            let (rs1, rids, rc) = resolve_urls(store_model(old(catalog).resources), uv);
            let cands = light_cands(uv, rids);
            let a0 = store_model(old(catalog).annotations);
            let a1 = run_upserts(a0, req.source@, cands);
            let seen = eids_of(req.source@, cands);
            let c = upsert_counts(a0, req.source@, cands);
            &&& store_model(final(catalog).resources) == rs1
            &&& resp.resources_created == rc
            &&& resp.annotations_created == c.created
            &&& resp.annotations_updated == c.updated
            &&& resp.annotations_unchanged == c.unchanged
            &&& (match scope_plan(rs1.rows, opt_view(req.scope)) {
                Some(sc) => store_model(final(catalog).annotations) == (StoreModel {
                    rows: apply_sweep(a1.rows, req.source@, sc, seen, a1.now),
                    next_id: a1.next_id,
                    now: a1.now,
                }) && resp.annotations_deleted == sweep_count(a1.rows, req.source@, sc, seen),
                None => store_model(final(catalog).annotations) == a1
                    && resp.annotations_deleted == 0,
            })
        }),
{
    let ghost uv = urls_view(req.highlights@);
    let ghost m0res = store_model(old(catalog).resources);
    let ghost m0ann = store_model(old(catalog).annotations);
    let n = req.highlights.len();

    // resolve every URL to a resource, creating missing ones
    let mut rids: Vec<i32> = Vec::new();
    let mut resources_created: i32 = 0;
    let mut i: usize = 0;
    proof {
        assert(uv.take(0) =~= Seq::<UrlModel>::empty());
    }
    while i < n
        invariant
            n == req.highlights@.len(),
            i <= n,
            uv == urls_view(req.highlights@),
            m0res == store_model(old(catalog).resources),
            m0res.next_id + n <= i32::MAX,
            1 <= m0res.next_id,
            catalog.wf(),
            catalog.annotations == old(catalog).annotations,
            catalog.comments == old(catalog).comments,
            catalog.notes == old(catalog).notes,
            ({
                let (rs1, ids, c) = resolve_urls(m0res, uv.take(i as int));
                &&& store_model(catalog.resources) == rs1
                &&& rids@ == ids
                &&& resources_created == c
                &&& 0 <= c <= i
            }),
            catalog.resources.now == old(catalog).resources.now,
        decreases n - i,
    {
        proof {
            assert(uv.take(i + 1 as int).drop_last() =~= uv.take(i as int));
            assert(uv.take(i + 1 as int).last() == uv[i as int]);
            assert(req.highlights@[i as int]@ == uv[i as int]);
            let (rs1, ids, c) = resolve_urls(m0res, uv.take(i as int));
            assert(catalog.resources.next_id as int == rs1.next_id);
            lemma_resolve_next_id(m0res, uv.take(i as int));
        }
        let entry = &req.highlights[i];
        let (rid, created) = find_or_create_resource(&mut catalog.resources, entry.url.as_str());
        rids.push(rid);
        if created {
            resources_created = resources_created + 1;
        }
        i = i + 1;
    }
    proof {
        assert(uv.take(n as int) =~= uv);
        lemma_resolve_urls_rids(m0res, uv);
    }

    // build the annotation candidates under the resolved resource ids
    let ghost rids_spec = resolve_urls(m0res, uv).1;
    let mut cands: Vec<Candidate> = Vec::new();
    let mut u: usize = 0;
    proof {
        assert(cands_view(cands@) =~= light_cands(uv.take(0), rids@.take(0)));
        lemma_total_records_nonneg(uv.take(0));
    }
    while u < n
        invariant
            n == req.highlights@.len(),
            u <= n,
            uv == urls_view(req.highlights@),
            rids@.len() == n,
            cands_view(cands@) == light_cands(uv.take(u as int), rids@.take(u as int)),
            cands@.len() == total_records(uv.take(u as int)),
            0 <= total_records(uv.take(u as int)),
        decreases n - u,
    {
        let entry = &req.highlights[u];
        let rid = rids[u];
        let m = entry.records.len();
        let mut j: usize = 0;
        proof {
            assert(req.highlights@[u as int]@ == uv[u as int]);
            assert(uv[u as int].records.take(0) =~= Seq::<RecordModel>::empty());
            assert(url_cands(uv[u as int].records.take(0), rid) =~= Seq::<CandidateModel>::empty());
            assert(cands_view(cands@) =~= light_cands(uv.take(u as int), rids@.take(u as int))
                + url_cands(uv[u as int].records.take(0), rid));
        }
        while j < m
            invariant
                n == req.highlights@.len(),
                u < n,
                m == req.highlights@[u as int].records@.len(),
                j <= m,
                uv == urls_view(req.highlights@),
                rids@.len() == n,
                rid == rids@[u as int],
                cands_view(cands@) == light_cands(uv.take(u as int), rids@.take(u as int))
                    + url_cands(uv[u as int].records.take(j as int), rid),
                cands@.len() == total_records(uv.take(u as int)) + j,
                0 <= total_records(uv.take(u as int)),
            decreases m - j,
        {
            let rec = &req.highlights[u].records[j];
            let native = crate::numfmt::i64_to_string(rec.highlight.group_id);
            let mut fields: Vec<Option<String>> = Vec::new();
            fields.push(Some(rec.highlight.repr.clone()));
            fields.push(Some(String::from_str("yellow")));
            let cand = Candidate {
                native_id: native,
                parent: Some(rid),
                fields,
                aux: crate::store::clone_opt_string(&rec.boundary),
            };
            proof {
                assert(req.highlights@[u as int]@ == uv[u as int]);
                assert(req.highlights@[u as int].records@[j as int]@ == uv[u as int].records[j as int]);
                assert(cand@.fields =~= highlight_cand(uv[u as int].records[j as int], rid).fields);
                assert(cand@ == highlight_cand(uv[u as int].records[j as int], rid));
            }
            let ghost before = cands@;
            cands.push(cand);
            proof {
                assert(cands_view(cands@) =~= cands_view(before).push(cand@));
                assert(uv[u as int].records.take(j + 1 as int) =~= uv[u as int].records.take(
                    j as int,
                ).push(uv[u as int].records[j as int]));
                assert(url_cands(uv[u as int].records.take(j + 1 as int), rid) =~= url_cands(
                    uv[u as int].records.take(j as int),
                    rid,
                ).push(highlight_cand(uv[u as int].records[j as int], rid)));
                assert(cands_view(cands@) =~= light_cands(uv.take(u as int), rids@.take(u as int))
                    + url_cands(uv[u as int].records.take(j + 1 as int), rid));
            }
            j = j + 1;
        }
        proof {
            assert(uv[u as int].records.take(m as int) =~= uv[u as int].records);
            assert(uv.take(u + 1 as int).drop_last() =~= uv.take(u as int));
            assert(rids@.take(u + 1 as int).drop_last() =~= rids@.take(u as int));
            assert(uv.take(u + 1 as int).last() == uv[u as int]);
            assert(rids@.take(u + 1 as int)[uv.take(u + 1 as int).len() - 1] == rids@[u as int]);
            assert(cands_view(cands@) =~= light_cands(
                uv.take(u + 1 as int),
                rids@.take(u + 1 as int),
            ));
        }
        u = u + 1;
    }
    proof {
        assert(uv.take(n as int) =~= uv);
        assert(rids@.take(n as int) =~= rids@);
        assert(rids@ == rids_spec);
    }

    // upsert every annotation candidate of the batch
    let mut seen = SeenSet::new();
    let mut ann_stats = SyncStats::new();
    proof {
        crate::reconcile::lemma_upsert_counts_bounded(m0ann, req.source@, cands_view(cands@));
    }
    upsert_all(&mut catalog.annotations, req.source.as_str(), &cands, &mut seen, &mut ann_stats);
    proof {
        assert(seen@ =~= eids_of(req.source@, cands_view(cands@)));
        // shapes and integrity of the annotations after the pass
        let pf = |f: Seq<Option<Seq<char>>>| f.len() == 2 && f[0] is Some;
        let pp = |p: Option<i32>| p matches Some(q) && id_among(
            store_model(catalog.resources).rows,
            q,
        );
        let pa = |a: Option<Seq<char>>| true;
        lemma_resolve_urls_rids(m0res, uv);
        assert forall|j: int| 0 <= j < m0ann.rows.len() implies pf(
            (#[trigger] m0ann.rows[j]).fields,
        ) && pp(m0ann.rows[j].parent) && pa(m0ann.rows[j].aux) by {
            assert(annotation_row_shape(old(catalog).annotations.models()[j]));
            assert(id_among(m0res.rows, m0ann.rows[j].parent->0));
            lemma_resolve_urls_ids(m0res, uv, m0ann.rows[j].parent->0);
        }
        lemma_light_cands_shape(uv, rids_spec, store_model(catalog.resources).rows);
        assert forall|k: int| 0 <= k < cands_view(cands@).len() implies pf(
            (#[trigger] cands_view(cands@)[k]).fields,
        ) && pp(cands_view(cands@)[k].parent) && pa(cands_view(cands@)[k].aux) by {
            assert(cands_view(cands@)[k] == light_cands(uv, rids_spec)[k]);
        }
        crate::reconcile::lemma_run_upserts_shaped(m0ann, req.source@, cands_view(cands@), pf, pp, pa);
        assert forall|j: int| 0 <= j < catalog.annotations.models().len() implies
            annotation_row_shape(#[trigger] catalog.annotations.models()[j]) && id_among(
            catalog.resources.models(),
            catalog.annotations.models()[j].parent->0,
        ) by {
            assert(store_model(catalog.annotations).rows[j] == catalog.annotations.models()[j]);
        }
    }

    // the orphan sweep, scoped when a scope URL is given
    let mut annotations_deleted: i32 = 0;
    let ghost a1 = store_model(catalog.annotations);
    match &req.scope {
        None => {
            proof {
                crate::reconcile::lemma_run_upserts_len(m0ann, req.source@, cands_view(cands@));
            }
            let mut sweep_stats = SyncStats::new();
            crate::reconcile::sweep_orphans(
                &mut catalog.annotations,
                req.source.as_str(),
                None,
                &seen,
                &mut sweep_stats,
            );
            annotations_deleted = sweep_stats.deleted;
            proof {
                crate::reconcile::lemma_sweep_keeps_content(a1.rows, req.source@, None, seen@, a1.now);
            }
        },
        Some(scope_url) => {
            let scope_res = catalog.resources.find_by_first_field(scope_url.as_str());
            match scope_res {
                Some(row) => {
                    proof {
                        crate::reconcile::lemma_run_upserts_len(
                            m0ann,
                            req.source@,
                            cands_view(cands@),
                        );
                    }
                    let mut sweep_stats = SyncStats::new();
                    crate::reconcile::sweep_orphans(
                        &mut catalog.annotations,
                        req.source.as_str(),
                        Some(row.id),
                        &seen,
                        &mut sweep_stats,
                    );
                    annotations_deleted = sweep_stats.deleted;
                    proof {
                        crate::reconcile::lemma_sweep_keeps_content(
                            a1.rows,
                            req.source@,
                            Some(row@.id),
                            seen@,
                            a1.now,
                        );
                    }
                },
                None => {
                    // the scope resolved to no resource: skip the sweep
                },
            }
        },
    }
    proof {
        let a1v = a1;
        assert forall|j: int| 0 <= j < catalog.annotations.models().len() implies
            annotation_row_shape(#[trigger] catalog.annotations.models()[j]) && id_among(
            catalog.resources.models(),
            catalog.annotations.models()[j].parent->0,
        ) by {
            assert(store_model(catalog.annotations).rows[j] == catalog.annotations.models()[j]);
        }
        assert(catalog.comments == old(catalog).comments);
        assert(catalog.notes == old(catalog).notes);
        assert forall|j: int| 0 <= j < catalog.comments.models().len() implies id_among(
            catalog.annotations.models(),
            (#[trigger] catalog.comments.models()[j]).parent->0,
        ) by {
            assert(catalog.comments.models()[j] == old(catalog).comments.models()[j]);
            let p = catalog.comments.models()[j].parent->0;
            assert(id_among(m0ann.rows, p));
            crate::reconcile::lemma_run_upserts_ids(m0ann, req.source@, cands_view(cands@), p);
            let wq = choose|w2: int| 0 <= w2 < a1v.rows.len() && (#[trigger] a1v.rows[w2]).id == p;
            assert(store_model(catalog.annotations).rows[wq].id == p);
            assert(catalog.annotations.models()[wq].id == p);
        }
        assert forall|j: int| 0 <= j < catalog.notes.models().len() implies id_among(
            catalog.resources.models(),
            (#[trigger] catalog.notes.models()[j]).parent->0,
        ) by {
            assert(catalog.notes.models()[j] == old(catalog).notes.models()[j]);
            let p = catalog.notes.models()[j].parent->0;
            assert(id_among(m0res.rows, p));
            lemma_resolve_urls_ids(m0res, uv, p);
            let (rs1b, ridsb, rcb) = resolve_urls(m0res, uv);
            let wq = choose|w2: int|
                0 <= w2 < rs1b.rows.len() && (#[trigger] rs1b.rows[w2]).id == p;
            assert(store_model(catalog.resources).rows[wq].id == p);
            assert(catalog.resources.models()[wq].id == p);
        }
    }
    SyncResponse {
        resources_created,
        annotations_created: ann_stats.created,
        annotations_updated: ann_stats.updated,
        annotations_deleted,
        annotations_unchanged: ann_stats.unchanged,
    }
}

/// A resolution pass only raises the id counter.
proof fn lemma_resolve_next_id(rs: StoreModel, urls: Seq<UrlModel>)
    ensures
        rs.next_id <= resolve_urls(rs, urls).0.next_id <= rs.next_id + urls.len(),
    decreases urls.len(),
{
    if urls.len() > 0 {
        lemma_resolve_next_id(rs, urls.drop_last());
    }
}

/// Candidate sums are never negative.
proof fn lemma_total_records_nonneg(urls: Seq<UrlModel>)
    ensures
        0 <= total_records(urls),
    decreases urls.len(),
{
    if urls.len() > 0 {
        lemma_total_records_nonneg(urls.drop_last());
    }
}

/// Every light candidate has the annotation shape, under a parent id that
/// the given rows carry.
proof fn lemma_light_cands_shape(urls: Seq<UrlModel>, rids: Seq<i32>, rows: Seq<RowModel>)
    requires
        rids.len() == urls.len(),
        forall|l: int| 0 <= l < urls.len() ==> id_among(rows, #[trigger] rids[l]),
    ensures
        forall|k: int|
            0 <= k < light_cands(urls, rids).len() ==> {
                let c = #[trigger] light_cands(urls, rids)[k];
                c.fields.len() == 2 && c.fields[0] is Some && (c.parent matches Some(q) && id_among(
                    rows,
                    q,
                ))
            },
    decreases urls.len(),
{
    if urls.len() > 0 {
        let prefix = urls.drop_last();
        let prids = rids.drop_last();
        assert(forall|l: int| 0 <= l < prefix.len() ==> #[trigger] prids[l] == rids[l]);
        lemma_light_cands_shape(prefix, prids, rows);
        let head = light_cands(prefix, prids);
        let rid = rids[urls.len() - 1];
        let tail = url_cands(urls.last().records, rid);
        assert forall|k: int| 0 <= k < light_cands(urls, rids).len() implies {
            let c = #[trigger] light_cands(urls, rids)[k];
            c.fields.len() == 2 && c.fields[0] is Some && (c.parent matches Some(q) && id_among(
                rows,
                q,
            ))
        } by {
            if k < head.len() {
                assert(light_cands(urls, rids)[k] == head[k]);
            } else {
                assert(light_cands(urls, rids)[k] == tail[k - head.len()]);
                assert(tail[k - head.len()] == highlight_cand(
                    urls.last().records[k - head.len()],
                    rid,
                ));
            }
        }
    }
}

} // verus!
