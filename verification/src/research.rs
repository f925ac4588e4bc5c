//! Sync of a research-notes database into the catalog.
//!
//! A batch carries items, each with its annotations (each with comments)
//! and notes.  The upsert pass runs top-down — resources, then annotations,
//! then comments, and notes — so every child is created under an already
//! persisted parent; the orphan sweeps run bottom-up afterwards: comments,
//! annotations, notes, resources.
use vstd::prelude::*;

use crate::commonplace::{
    annotation_row_shape, comment_row_shape, note_row_shape, resource_row_shape, Catalog,
};
use crate::hash::fields_view;
use crate::reconcile::{
    apply_sweep, cands_view, eids_of, external_id_of, find_live, format_external_id, id_among,
    lemma_run_upserts_eids_live, lemma_run_upserts_ids, lemma_run_upserts_len,
    lemma_run_upserts_shaped, lemma_sweep_keeps_content, lemma_upsert_counts_bounded, run_upserts,
    store_model, sweep_count, sweep_orphans, upsert_all, upsert_counts, Candidate, CandidateModel,
    SeenSet, StoreModel,
};
use crate::store::{opt_view, row_live_eid, RowModel};
use crate::sync::SyncStats;

verus! {

/// A request to point the sync at a research database.
pub struct SetConfigRequest {
    pub db_path: String,
}

/// The configured database path and the last successful sync time.
pub struct ConfigResponse {
    pub db_path: Option<String>,
    pub last_sync_at: Option<String>,
}

/// One item of the research database: a document with a title.
pub struct ResearchItem {
    pub id: String,
    pub title: String,
}

/// One highlight of an item, with the boundary payload the caller rendered.
pub struct ResearchAnnotation {
    pub id: String,
    pub text: String,
    pub color: Option<String>,
    pub boundary: Option<String>,
}

/// One comment under an annotation.
pub struct ResearchComment {
    pub id: String,
    pub content: String,
}

/// One note under an item.
pub struct ResearchNote {
    pub id: String,
    pub content: String,
}

/// An annotation together with its comments.
pub struct AnnotationBundle {
    pub annotation: ResearchAnnotation,
    pub comments: Vec<ResearchComment>,
}

/// One item with everything under it, as the sync consumes it.
pub struct ResearchBatchItem {
    pub item: ResearchItem,
    pub annotations: Vec<AnnotationBundle>,
    pub notes: Vec<ResearchNote>,
}

/// Per-kind counters of one research sync.
pub struct SyncResponse {
    pub resources_created: i32,
    pub resources_updated: i32,
    pub resources_deleted: i32,
    pub resources_unchanged: i32,
    pub annotations_created: i32,
    pub annotations_updated: i32,
    pub annotations_deleted: i32,
    pub annotations_unchanged: i32,
    pub comments_created: i32,
    pub comments_updated: i32,
    pub comments_deleted: i32,
    pub comments_unchanged: i32,
    pub notes_created: i32,
    pub notes_updated: i32,
    pub notes_deleted: i32,
    pub notes_unchanged: i32,
}

impl SyncResponse {
    pub fn new() -> (r: SyncResponse)
        ensures
            r == (SyncResponse {
                resources_created: 0,
                resources_updated: 0,
                resources_deleted: 0,
                resources_unchanged: 0,
                annotations_created: 0,
                annotations_updated: 0,
                annotations_deleted: 0,
                annotations_unchanged: 0,
                comments_created: 0,
                comments_updated: 0,
                comments_deleted: 0,
                comments_unchanged: 0,
                notes_created: 0,
                notes_updated: 0,
                notes_deleted: 0,
                notes_unchanged: 0,
            }),
    {
        SyncResponse {
            resources_created: 0,
            resources_updated: 0,
            resources_deleted: 0,
            resources_unchanged: 0,
            annotations_created: 0,
            annotations_updated: 0,
            annotations_deleted: 0,
            annotations_unchanged: 0,
            comments_created: 0,
            comments_updated: 0,
            comments_deleted: 0,
            comments_unchanged: 0,
            notes_created: 0,
            notes_updated: 0,
            notes_deleted: 0,
            notes_unchanged: 0,
        }
    }

    /// Copies one kind's counters into the resource slots.
    pub fn apply_resources(&mut self, stats: &SyncStats)
        ensures
            *final(self) == (SyncResponse {
                resources_created: stats.created,
                resources_updated: stats.updated,
                resources_deleted: stats.deleted,
                resources_unchanged: stats.unchanged,
                ..*old(self)
            }),
    {
        self.resources_created = stats.created;
        self.resources_updated = stats.updated;
        self.resources_deleted = stats.deleted;
        self.resources_unchanged = stats.unchanged;
    }

    /// Copies one kind's counters into the annotation slots.
    pub fn apply_annotations(&mut self, stats: &SyncStats)
        ensures
            *final(self) == (SyncResponse {
                annotations_created: stats.created,
                annotations_updated: stats.updated,
                annotations_deleted: stats.deleted,
                annotations_unchanged: stats.unchanged,
                ..*old(self)
            }),
    {
        self.annotations_created = stats.created;
        self.annotations_updated = stats.updated;
        self.annotations_deleted = stats.deleted;
        self.annotations_unchanged = stats.unchanged;
    }

    /// Copies one kind's counters into the comment slots.
    pub fn apply_comments(&mut self, stats: &SyncStats)
        ensures
            *final(self) == (SyncResponse {
                comments_created: stats.created,
                comments_updated: stats.updated,
                comments_deleted: stats.deleted,
                comments_unchanged: stats.unchanged,
                ..*old(self)
            }),
    {
        self.comments_created = stats.created;
        self.comments_updated = stats.updated;
        self.comments_deleted = stats.deleted;
        self.comments_unchanged = stats.unchanged;
    }

    /// Copies one kind's counters into the note slots.
    pub fn apply_notes(&mut self, stats: &SyncStats)
        ensures
            *final(self) == (SyncResponse {
                notes_created: stats.created,
                notes_updated: stats.updated,
                notes_deleted: stats.deleted,
                notes_unchanged: stats.unchanged,
                ..*old(self)
            }),
    {
        self.notes_created = stats.created;
        self.notes_updated = stats.updated;
        self.notes_deleted = stats.deleted;
        self.notes_unchanged = stats.unchanged;
    }
}

/// The mathematical content of a comment.
pub ghost struct CommentModel {
    pub id: Seq<char>,
    pub content: Seq<char>,
}

/// The mathematical content of a note.
pub ghost struct NoteModel {
    pub id: Seq<char>,
    pub content: Seq<char>,
}

/// The mathematical content of an annotation.
pub ghost struct AnnModel {
    pub id: Seq<char>,
    pub text: Seq<char>,
    pub color: Option<Seq<char>>,
    pub boundary: Option<Seq<char>>,
}

/// The mathematical content of an annotation bundle.
pub ghost struct BundleModel {
    pub ann: AnnModel,
    pub comments: Seq<CommentModel>,
}

/// The mathematical content of one batch item.
pub ghost struct ItemModel {
    pub id: Seq<char>,
    pub title: Seq<char>,
    pub annotations: Seq<BundleModel>,
    pub notes: Seq<NoteModel>,
}

impl View for ResearchComment {
    type V = CommentModel;

    open spec fn view(&self) -> CommentModel {
        CommentModel { id: self.id@, content: self.content@ }
    }
}

impl View for ResearchNote {
    type V = NoteModel;

    open spec fn view(&self) -> NoteModel {
        NoteModel { id: self.id@, content: self.content@ }
    }
}

impl View for AnnotationBundle {
    type V = BundleModel;

    open spec fn view(&self) -> BundleModel {
        BundleModel {
            ann: AnnModel {
                id: self.annotation.id@,
                text: self.annotation.text@,
                color: opt_view(self.annotation.color),
                boundary: opt_view(self.annotation.boundary),
            },
            comments: self.comments@.map_values(|c: ResearchComment| c@),
        }
    }
}

impl View for ResearchBatchItem {
    type V = ItemModel;

    open spec fn view(&self) -> ItemModel {
        ItemModel {
            id: self.item.id@,
            title: self.item.title@,
            annotations: self.annotations@.map_values(|b: AnnotationBundle| b@),
            notes: self.notes@.map_values(|n: ResearchNote| n@),
        }
    }
}

/// The models of a whole batch.
pub open spec fn items_view(v: Seq<ResearchBatchItem>) -> Seq<ItemModel> {
    v.map_values(|it: ResearchBatchItem| it@)
}

/// The resource candidate of one item: its title, tagged as a PDF.
pub open spec fn res_cand(it: ItemModel) -> CandidateModel {
    CandidateModel {
        native_id: it.id,
        parent: None,
        fields: seq![Some(it.title)],
        aux: Some("pdf"@),
    }
}

pub open spec fn res_cands(items: Seq<ItemModel>) -> Seq<CandidateModel> {
    items.map_values(|it: ItemModel| res_cand(it))
}

/// The id of the live row carrying this namespaced native id.
pub open spec fn rid_of(rows: Seq<RowModel>, source: Seq<char>, native: Seq<char>) -> i32 {
    match find_live(rows, external_id_of(source, native)) {
        Some(i) => rows[i].id,
        None => 0,
    }
}

/// The annotation candidate of one highlight under its resource.
pub open spec fn ann_cand(a: AnnModel, rid: i32) -> CandidateModel {
    CandidateModel {
        native_id: a.id,
        parent: Some(rid),
        fields: seq![Some(a.text), a.color],
        aux: a.boundary,
    }
}

pub open spec fn item_ann_cands(it: ItemModel, rid: i32) -> Seq<CandidateModel> {
    it.annotations.map_values(|b: BundleModel| ann_cand(b.ann, rid))
}

/// All annotation candidates of a batch, resolved against the resource rows
/// that the resource pass produced.
pub open spec fn ann_cands(items: Seq<ItemModel>, rrows: Seq<RowModel>, source: Seq<char>) -> Seq<
    CandidateModel,
>
    decreases items.len(),
{
    if items.len() == 0 {
        Seq::<CandidateModel>::empty()
    } else {
        ann_cands(items.drop_last(), rrows, source) + item_ann_cands(
            items.last(),
            rid_of(rrows, source, items.last().id),
        )
    }
}

/// The comment candidate of one remark under its annotation.
pub open spec fn comment_cand(c: CommentModel, aid: i32) -> CandidateModel {
    CandidateModel { native_id: c.id, parent: Some(aid), fields: seq![Some(c.content)], aux: None }
}

pub open spec fn bundle_comment_cands(b: BundleModel, aid: i32) -> Seq<CandidateModel> {
    b.comments.map_values(|c: CommentModel| comment_cand(c, aid))
}

/// The comment candidates of a bundle list, resolved against the annotation
/// rows that the annotation pass produced.
pub open spec fn bundles_comment_cands(
    bs: Seq<BundleModel>,
    arows: Seq<RowModel>,
    source: Seq<char>,
) -> Seq<CandidateModel>
    decreases bs.len(),
{
    if bs.len() == 0 {
        Seq::<CandidateModel>::empty()
    } else {
        bundles_comment_cands(bs.drop_last(), arows, source) + bundle_comment_cands(
            bs.last(),
            rid_of(arows, source, bs.last().ann.id),
        )
    }
}

pub open spec fn comment_cands(
    items: Seq<ItemModel>,
    arows: Seq<RowModel>,
    source: Seq<char>,
) -> Seq<CandidateModel>
    decreases items.len(),
{
    if items.len() == 0 {
        Seq::<CandidateModel>::empty()
    } else {
        comment_cands(items.drop_last(), arows, source) + bundles_comment_cands(
            items.last().annotations,
            arows,
            source,
        )
    }
}

/// The note candidate of one note under its resource.
pub open spec fn note_cand(n: NoteModel, rid: i32) -> CandidateModel {
    CandidateModel { native_id: n.id, parent: Some(rid), fields: seq![Some(n.content)], aux: None }
}

pub open spec fn item_note_cands(it: ItemModel, rid: i32) -> Seq<CandidateModel> {
    it.notes.map_values(|n: NoteModel| note_cand(n, rid))
}

pub open spec fn note_cands(items: Seq<ItemModel>, rrows: Seq<RowModel>, source: Seq<char>) -> Seq<
    CandidateModel,
>
    decreases items.len(),
{
    if items.len() == 0 {
        Seq::<CandidateModel>::empty()
    } else {
        note_cands(items.drop_last(), rrows, source) + item_note_cands(
            items.last(),
            rid_of(rrows, source, items.last().id),
        )
    }
}

/// How many annotations a batch carries.
pub open spec fn total_anns(items: Seq<ItemModel>) -> int
    decreases items.len(),
{
    if items.len() == 0 {
        0
    } else {
        total_anns(items.drop_last()) + items.last().annotations.len()
    }
}

/// How many comments a bundle list carries.
pub open spec fn bundles_comments(bs: Seq<BundleModel>) -> int
    decreases bs.len(),
{
    if bs.len() == 0 {
        0
    } else {
        bundles_comments(bs.drop_last()) + bs.last().comments.len()
    }
}

/// How many comments a batch carries.
pub open spec fn total_comments(items: Seq<ItemModel>) -> int
    decreases items.len(),
{
    if items.len() == 0 {
        0
    } else {
        total_comments(items.drop_last()) + bundles_comments(items.last().annotations)
    }
}

/// How many notes a batch carries.
pub open spec fn total_notes(items: Seq<ItemModel>) -> int
    decreases items.len(),
{
    if items.len() == 0 {
        0
    } else {
        total_notes(items.drop_last()) + items.last().notes.len()
    }
}

/// Every annotation candidate has the annotation shape, under a parent id
/// the resource rows carry.
proof fn lemma_ann_cands_shape(items: Seq<ItemModel>, rrows: Seq<RowModel>, source: Seq<char>)
    requires
        forall|k: int|
            0 <= k < items.len() ==> find_live(
                rrows,
                external_id_of(source, (#[trigger] items[k]).id),
            ) is Some,
    ensures
        forall|k: int|
            0 <= k < ann_cands(items, rrows, source).len() ==> {
                let c = #[trigger] ann_cands(items, rrows, source)[k];
                c.fields.len() == 2 && c.fields[0] is Some && (c.parent matches Some(q) && id_among(
                    rrows,
                    q,
                ))
            },
    decreases items.len(),
{
    if items.len() > 0 {
        let prefix = items.drop_last();
        assert(forall|k: int| 0 <= k < prefix.len() ==> #[trigger] prefix[k] == items[k]);
        lemma_ann_cands_shape(prefix, rrows, source);
        let head = ann_cands(prefix, rrows, source);
        let rid = rid_of(rrows, source, items.last().id);
        let tail = item_ann_cands(items.last(), rid);
        assert(id_among(rrows, rid)) by {
            let w = find_live(rrows, external_id_of(source, items.last().id))->0;
            assert(row_live_eid(rrows[w], external_id_of(source, items.last().id)));
            assert(rrows[w].id == rid);
        }
        assert forall|k: int| 0 <= k < ann_cands(items, rrows, source).len() implies {
            let c = #[trigger] ann_cands(items, rrows, source)[k];
            c.fields.len() == 2 && c.fields[0] is Some && (c.parent matches Some(q) && id_among(
                rrows,
                q,
            ))
        } by {
            if k < head.len() {
                assert(ann_cands(items, rrows, source)[k] == head[k]);
            } else {
                assert(ann_cands(items, rrows, source)[k] == tail[k - head.len()]);
                assert(tail[k - head.len()] == ann_cand(
                    items.last().annotations[k - head.len()].ann,
                    rid,
                ));
            }
        }
    }
}

/// Every comment candidate has the comment shape, under a parent id the
/// annotation rows carry; and likewise note candidates under resource rows.
proof fn lemma_bundles_comment_cands_shape(
    bs: Seq<BundleModel>,
    arows: Seq<RowModel>,
    source: Seq<char>,
)
    requires
        forall|k: int|
            0 <= k < bs.len() ==> find_live(
                arows,
                external_id_of(source, (#[trigger] bs[k]).ann.id),
            ) is Some,
    ensures
        forall|k: int|
            0 <= k < bundles_comment_cands(bs, arows, source).len() ==> {
                let c = #[trigger] bundles_comment_cands(bs, arows, source)[k];
                c.fields.len() == 1 && c.fields[0] is Some && (c.parent matches Some(q)
                    && id_among(arows, q))
            },
    decreases bs.len(),
{
    if bs.len() > 0 {
        let prefix = bs.drop_last();
        assert(forall|k: int| 0 <= k < prefix.len() ==> #[trigger] prefix[k] == bs[k]);
        lemma_bundles_comment_cands_shape(prefix, arows, source);
        let head = bundles_comment_cands(prefix, arows, source);
        let aid = rid_of(arows, source, bs.last().ann.id);
        let tail = bundle_comment_cands(bs.last(), aid);
        assert(id_among(arows, aid)) by {
            let w = find_live(arows, external_id_of(source, bs.last().ann.id))->0;
            assert(row_live_eid(arows[w], external_id_of(source, bs.last().ann.id)));
            assert(arows[w].id == aid);
        }
        assert forall|k: int| 0 <= k < bundles_comment_cands(bs, arows, source).len() implies {
            let c = #[trigger] bundles_comment_cands(bs, arows, source)[k];
            c.fields.len() == 1 && c.fields[0] is Some && (c.parent matches Some(q) && id_among(
                arows,
                q,
            ))
        } by {
            if k < head.len() {
                assert(bundles_comment_cands(bs, arows, source)[k] == head[k]);
            } else {
                assert(bundles_comment_cands(bs, arows, source)[k] == tail[k - head.len()]);
                assert(tail[k - head.len()] == comment_cand(
                    bs.last().comments[k - head.len()],
                    aid,
                ));
            }
        }
    }
}

proof fn lemma_comment_cands_shape(items: Seq<ItemModel>, arows: Seq<RowModel>, source: Seq<char>)
    requires
        forall|i: int, b: int|
            #![trigger items[i].annotations[b]]
            0 <= i < items.len() && 0 <= b < items[i].annotations.len() ==> find_live(
                arows,
                external_id_of(source, items[i].annotations[b].ann.id),
            ) is Some,
    ensures
        forall|k: int|
            0 <= k < comment_cands(items, arows, source).len() ==> {
                let c = #[trigger] comment_cands(items, arows, source)[k];
                c.fields.len() == 1 && c.fields[0] is Some && (c.parent matches Some(q)
                    && id_among(arows, q))
            },
    decreases items.len(),
{
    if items.len() > 0 {
        let prefix = items.drop_last();
        assert(forall|k: int| 0 <= k < prefix.len() ==> #[trigger] prefix[k] == items[k]);
        lemma_comment_cands_shape(prefix, arows, source);
        let head = comment_cands(prefix, arows, source);
        let bs = items.last().annotations;
        assert forall|k: int| 0 <= k < bs.len() implies find_live(
            arows,
            external_id_of(source, (#[trigger] bs[k]).ann.id),
        ) is Some by {
            assert(items[items.len() - 1].annotations[k] == bs[k]);
        }
        lemma_bundles_comment_cands_shape(bs, arows, source);
        let tail = bundles_comment_cands(bs, arows, source);
        assert forall|k: int| 0 <= k < comment_cands(items, arows, source).len() implies {
            let c = #[trigger] comment_cands(items, arows, source)[k];
            c.fields.len() == 1 && c.fields[0] is Some && (c.parent matches Some(q) && id_among(
                arows,
                q,
            ))
        } by {
            if k < head.len() {
                assert(comment_cands(items, arows, source)[k] == head[k]);
            } else {
                assert(comment_cands(items, arows, source)[k] == tail[k - head.len()]);
            }
        }
    }
}

proof fn lemma_note_cands_shape(items: Seq<ItemModel>, rrows: Seq<RowModel>, source: Seq<char>)
    requires
        forall|k: int|
            0 <= k < items.len() ==> find_live(
                rrows,
                external_id_of(source, (#[trigger] items[k]).id),
            ) is Some,
    ensures
        forall|k: int|
            0 <= k < note_cands(items, rrows, source).len() ==> {
                let c = #[trigger] note_cands(items, rrows, source)[k];
                c.fields.len() == 1 && c.fields[0] is Some && (c.parent matches Some(q)
                    && id_among(rrows, q))
            },
    decreases items.len(),
{
    if items.len() > 0 {
        let prefix = items.drop_last();
        assert(forall|k: int| 0 <= k < prefix.len() ==> #[trigger] prefix[k] == items[k]);
        lemma_note_cands_shape(prefix, rrows, source);
        let head = note_cands(prefix, rrows, source);
        let rid = rid_of(rrows, source, items.last().id);
        let tail = item_note_cands(items.last(), rid);
        assert(id_among(rrows, rid)) by {
            let w = find_live(rrows, external_id_of(source, items.last().id))->0;
            assert(row_live_eid(rrows[w], external_id_of(source, items.last().id)));
            assert(rrows[w].id == rid);
        }
        assert forall|k: int| 0 <= k < note_cands(items, rrows, source).len() implies {
            let c = #[trigger] note_cands(items, rrows, source)[k];
            c.fields.len() == 1 && c.fields[0] is Some && (c.parent matches Some(q) && id_among(
                rrows,
                q,
            ))
        } by {
            if k < head.len() {
                assert(note_cands(items, rrows, source)[k] == head[k]);
            } else {
                assert(note_cands(items, rrows, source)[k] == tail[k - head.len()]);
                assert(tail[k - head.len()] == note_cand(
                    items.last().notes[k - head.len()],
                    rid,
                ));
            }
        }
    }
}

/// Candidate totals are never negative.
proof fn lemma_totals_nonneg(items: Seq<ItemModel>)
    ensures
        0 <= total_anns(items),
        0 <= total_comments(items),
        0 <= total_notes(items),
    decreases items.len(),
{
    if items.len() > 0 {
        lemma_totals_nonneg(items.drop_last());
        lemma_bundles_comments_nonneg(items.last().annotations);
    }
}

proof fn lemma_bundles_comments_nonneg(bs: Seq<BundleModel>)
    ensures
        0 <= bundles_comments(bs),
    decreases bs.len(),
{
    if bs.len() > 0 {
        lemma_bundles_comments_nonneg(bs.drop_last());
    }
}

/// A nested annotation of the batch occurs among the annotation candidates.
proof fn lemma_ann_cands_contains(
    items: Seq<ItemModel>,
    rrows: Seq<RowModel>,
    source: Seq<char>,
    i: int,
    b: int,
)
    requires
        0 <= i < items.len(),
        0 <= b < items[i].annotations.len(),
    ensures
        exists|k: int|
            0 <= k < ann_cands(items, rrows, source).len() && (#[trigger] ann_cands(
                items,
                rrows,
                source,
            )[k]).native_id == items[i].annotations[b].ann.id,
    decreases items.len(),
{
    let whole = ann_cands(items, rrows, source);
    let prefix = items.drop_last();
    let head = ann_cands(prefix, rrows, source);
    if i < items.len() - 1 {
        assert(prefix[i] == items[i]);
        lemma_ann_cands_contains(prefix, rrows, source, i, b);
        let k = choose|k: int|
            0 <= k < head.len() && (#[trigger] head[k]).native_id == prefix[i].annotations[b].ann.id;
        assert(whole[k] == head[k]);
    } else {
        let rid = rid_of(rrows, source, items.last().id);
        let k = head.len() as int + b;
        assert(whole[k] == item_ann_cands(items.last(), rid)[b]);
        assert(item_ann_cands(items.last(), rid)[b] == ann_cand(items.last().annotations[b].ann, rid));
    }
}

/// Synchronizes one research batch into the catalog: resources, then each
/// item's annotations, their comments, and the item's notes, all keyed by
/// namespaced external ids; afterwards the orphan sweeps run bottom-up —
/// comments, annotations, notes, resources — so a renamed parent never
/// strands its children.
#[verifier::rlimit(100)]
pub fn sync_all_entities(catalog: &mut Catalog, items: &Vec<ResearchBatchItem>) -> (resp:
    SyncResponse)
    requires
        old(catalog).wf(),
        old(catalog).integrity(),
        old(catalog).resources.next_id + items@.len() <= i32::MAX,
        old(catalog).resources.models().len() + items@.len() <= i32::MAX,
        old(catalog).annotations.next_id + total_anns(items_view(items@)) <= i32::MAX,
        old(catalog).annotations.models().len() + total_anns(items_view(items@)) <= i32::MAX,
        old(catalog).comments.next_id + total_comments(items_view(items@)) <= i32::MAX,
        old(catalog).comments.models().len() + total_comments(items_view(items@)) <= i32::MAX,
        old(catalog).notes.next_id + total_notes(items_view(items@)) <= i32::MAX,
        old(catalog).notes.models().len() + total_notes(items_view(items@)) <= i32::MAX,
    ensures
        final(catalog).wf(),
        final(catalog).integrity(),
        ({
            let iv = items_view(items@);
            let src = "research"@;
            let r1 = run_upserts(store_model(old(catalog).resources), src, res_cands(iv));
            let a1 = run_upserts(
                store_model(old(catalog).annotations),
                src,
                ann_cands(iv, r1.rows, src),
            );
            let c1 = run_upserts(
                store_model(old(catalog).comments),
                src,
                comment_cands(iv, a1.rows, src),
            );
            let n1 = run_upserts(
                store_model(old(catalog).notes),
                src,
                note_cands(iv, r1.rows, src),
            );
            let rc = upsert_counts(store_model(old(catalog).resources), src, res_cands(iv));
            let ac = upsert_counts(
                store_model(old(catalog).annotations),
                src,
                ann_cands(iv, r1.rows, src),
            );
            let cc = upsert_counts(
                store_model(old(catalog).comments),
                src,
                comment_cands(iv, a1.rows, src),
            );
            let nc = upsert_counts(
                store_model(old(catalog).notes),
                src,
                note_cands(iv, r1.rows, src),
            );
            let rseen = eids_of(src, res_cands(iv));
            let aseen = eids_of(src, ann_cands(iv, r1.rows, src));
            let cseen = eids_of(src, comment_cands(iv, a1.rows, src));
            let nseen = eids_of(src, note_cands(iv, r1.rows, src));
            &&& store_model(final(catalog).resources) == (StoreModel {
                rows: apply_sweep(r1.rows, src, None, rseen, r1.now),
                next_id: r1.next_id,
                now: r1.now,
            })
            &&& store_model(final(catalog).annotations) == (StoreModel {
                rows: apply_sweep(a1.rows, src, None, aseen, a1.now),
                next_id: a1.next_id,
                now: a1.now,
            })
            &&& store_model(final(catalog).comments) == (StoreModel {
                rows: apply_sweep(c1.rows, src, None, cseen, c1.now),
                next_id: c1.next_id,
                now: c1.now,
            })
            &&& store_model(final(catalog).notes) == (StoreModel {
                rows: apply_sweep(n1.rows, src, None, nseen, n1.now),
                next_id: n1.next_id,
                now: n1.now,
            })
            &&& resp.resources_created == rc.created
            &&& resp.resources_updated == rc.updated
            &&& resp.resources_unchanged == rc.unchanged
            &&& resp.resources_deleted == sweep_count(r1.rows, src, None, rseen)
            &&& resp.annotations_created == ac.created
            &&& resp.annotations_updated == ac.updated
            &&& resp.annotations_unchanged == ac.unchanged
            &&& resp.annotations_deleted == sweep_count(a1.rows, src, None, aseen)
            &&& resp.comments_created == cc.created
            &&& resp.comments_updated == cc.updated
            &&& resp.comments_unchanged == cc.unchanged
            &&& resp.comments_deleted == sweep_count(c1.rows, src, None, cseen)
            &&& resp.notes_created == nc.created
            &&& resp.notes_updated == nc.updated
            &&& resp.notes_unchanged == nc.unchanged
            &&& resp.notes_deleted == sweep_count(n1.rows, src, None, nseen)
        }),
{
    let ghost iv = items_view(items@);
    let ghost src = "research"@;
    let ghost m0res = store_model(old(catalog).resources);
    let ghost m0ann = store_model(old(catalog).annotations);
    let ghost m0com = store_model(old(catalog).comments);
    let ghost m0not = store_model(old(catalog).notes);
    let n = items.len();
    proof {
        lemma_totals_nonneg(iv);
    }

    // resources, top of the cascade
    let mut rcands: Vec<Candidate> = Vec::new();
    let mut i: usize = 0;
    proof {
        assert(cands_view(rcands@) =~= res_cands(iv.take(0)));
    }
    while i < n
        invariant
            n == items@.len(),
            i <= n,
            iv == items_view(items@),
            src == "research"@,
            cands_view(rcands@) == res_cands(iv.take(i as int)),
            rcands@.len() == i,
        decreases n - i,
    {
        let it = &items[i];
        let mut fields: Vec<Option<String>> = Vec::new();
        fields.push(Some(it.item.title.clone()));
        let cand = Candidate {
            native_id: it.item.id.clone(),
            parent: None,
            fields,
            aux: Some(String::from_str("pdf")),
        };
        proof {
            assert(items@[i as int]@ == iv[i as int]);
            assert(cand@.fields =~= res_cand(iv[i as int]).fields);
            assert(cand@ == res_cand(iv[i as int]));
        }
        let ghost before_r = rcands@;
        rcands.push(cand);
        proof {
            assert(cands_view(rcands@) =~= cands_view(before_r).push(cand@));
            assert(iv.take(i + 1 as int) =~= iv.take(i as int).push(iv[i as int]));
            assert(res_cands(iv.take(i + 1 as int)) =~= res_cands(iv.take(i as int)).push(
                res_cand(iv[i as int]),
            ));
            assert(cands_view(rcands@) =~= res_cands(iv.take(i + 1 as int)));
        }
        i = i + 1;
    }
    proof {
        assert(iv.take(n as int) =~= iv);
    }
    let mut rseen = SeenSet::new();
    let mut res_stats = SyncStats::new();
    proof {
        lemma_upsert_counts_bounded(m0res, src, cands_view(rcands@));
    }
    upsert_all(&mut catalog.resources, "research", &rcands, &mut rseen, &mut res_stats);
    let ghost r1 = store_model(catalog.resources);
    proof {
        assert(rseen@ =~= eids_of(src, res_cands(iv)));
        crate::reconcile::lemma_store_wf_model(catalog.resources);
        lemma_run_upserts_eids_live(m0res, src, res_cands(iv));
        assert forall|k: int| 0 <= k < iv.len() implies exists|w2: int|
            0 <= w2 < r1.rows.len() && row_live_eid(
                #[trigger] r1.rows[w2],
                external_id_of(src, (#[trigger] iv[k]).id),
            ) by {
            assert(res_cands(iv)[k] == res_cand(iv[k]));
            let w2 = choose|w2: int|
                0 <= w2 < run_upserts(m0res, src, res_cands(iv)).rows.len() && row_live_eid(
                    #[trigger] run_upserts(m0res, src, res_cands(iv)).rows[w2],
                    external_id_of(src, res_cands(iv)[k].native_id),
                );
            assert(r1.rows == run_upserts(m0res, src, res_cands(iv)).rows);
            assert(row_live_eid(r1.rows[w2], external_id_of(src, iv[k].id)));
        }
        // resource rows keep their shape through the pass
        let pf = |f: Seq<Option<Seq<char>>>| f.len() == 1 && f[0] is Some;
        let pp = |p: Option<i32>| p is None;
        let pa = |a: Option<Seq<char>>| a == Some("website"@) || a == Some("pdf"@);
        assert forall|j: int| 0 <= j < m0res.rows.len() implies pf(
            (#[trigger] m0res.rows[j]).fields,
        ) && pp(m0res.rows[j].parent) && pa(m0res.rows[j].aux) by {
            assert(resource_row_shape(old(catalog).resources.models()[j]));
        }
        assert forall|k: int| 0 <= k < res_cands(iv).len() implies pf(
            (#[trigger] res_cands(iv)[k]).fields,
        ) && pp(res_cands(iv)[k].parent) && pa(res_cands(iv)[k].aux) by {
            assert(res_cands(iv)[k] == res_cand(iv[k]));
        }
        lemma_run_upserts_shaped(m0res, src, res_cands(iv), pf, pp, pa);
        assert forall|j: int| 0 <= j < r1.rows.len() implies resource_row_shape(
            #[trigger] r1.rows[j],
        ) by {
            assert(r1.rows[j] == run_upserts(m0res, src, res_cands(iv)).rows[j]);
            assert(pf(r1.rows[j].fields) && pp(r1.rows[j].parent) && pa(r1.rows[j].aux));
        }
    }

    // resolve each item's resource id
    let mut rids: Vec<i32> = Vec::new();
    let mut i2: usize = 0;
    while i2 < n
        invariant
            n == items@.len(),
            i2 <= n,
            iv == items_view(items@),
            src == "research"@,
            r1 == store_model(catalog.resources),
            catalog.resources.wf(),
            forall|k: int|
                0 <= k < iv.len() ==> exists|w: int|
                    0 <= w < r1.rows.len() && row_live_eid(
                        #[trigger] r1.rows[w],
                        external_id_of(src, (#[trigger] iv[k]).id),
                    ),
            rids@.len() == i2,
            forall|k: int| 0 <= k < i2 ==> #[trigger] rids@[k] == rid_of(r1.rows, src, iv[k].id),
            catalog.annotations == old(catalog).annotations,
            catalog.comments == old(catalog).comments,
            catalog.notes == old(catalog).notes,
        decreases n - i2,
    {
        let eid = format_external_id("research", items[i2].item.id.as_str());
        proof {
            assert(items@[i2 as int]@ == iv[i2 as int]);
            assert(eid@ == external_id_of(src, iv[i2 as int].id));
        }
        let found = catalog.resources.find_by_external_id(eid.as_str());
        match found {
            Some(row) => {
                proof {
                    let w = choose|w: int|
                        0 <= w < r1.rows.len() && r1.rows[w] == row@ && row_live_eid(row@, eid@);
                    assert(find_live(r1.rows, eid@) is Some);
                    let j = find_live(r1.rows, eid@)->0;
                    assert(row_live_eid(r1.rows[j], eid@));
                    if j != w {
                        assert(r1.rows[j].external_id != r1.rows[w].external_id);
                    }
                    assert(row@.id == rid_of(r1.rows, src, iv[i2 as int].id));
                }
                rids.push(row.id);
            },
            None => {
                proof {
                    let w = choose|w: int|
                        0 <= w < r1.rows.len() && row_live_eid(
                            #[trigger] r1.rows[w],
                            external_id_of(src, iv[i2 as int].id),
                        );
                    assert(false);
                }
                rids.push(0);
            },
        }
        i2 = i2 + 1;
    }

    // annotations under their resources
    let mut acands: Vec<Candidate> = Vec::new();
    let mut u: usize = 0;
    proof {
        assert(cands_view(acands@) =~= ann_cands(iv.take(0), r1.rows, src));
        lemma_totals_nonneg(iv.take(0));
    }
    while u < n
        invariant
            n == items@.len(),
            u <= n,
            iv == items_view(items@),
            src == "research"@,
            rids@.len() == n,
            forall|k: int| 0 <= k < n ==> #[trigger] rids@[k] == rid_of(r1.rows, src, iv[k].id),
            cands_view(acands@) == ann_cands(iv.take(u as int), r1.rows, src),
            acands@.len() == total_anns(iv.take(u as int)),
            0 <= total_anns(iv.take(u as int)),
        decreases n - u,
    {
        let m = items[u].annotations.len();
        let rid = rids[u];
        let mut b: usize = 0;
        proof {
            assert(items@[u as int]@ == iv[u as int]);
            assert(iv[u as int].annotations.take(0).map_values(
                |bm: BundleModel| ann_cand(bm.ann, rid),
            ) =~= Seq::<CandidateModel>::empty());
            assert(cands_view(acands@) =~= ann_cands(iv.take(u as int), r1.rows, src)
                + iv[u as int].annotations.take(0).map_values(
                |bm: BundleModel| ann_cand(bm.ann, rid),
            ));
        }
        while b < m
            invariant
                n == items@.len(),
                u < n,
                m == items@[u as int].annotations@.len(),
                b <= m,
                iv == items_view(items@),
                src == "research"@,
                rids@.len() == n,
                rid == rids@[u as int],
                rid == rid_of(r1.rows, src, iv[u as int].id),
                cands_view(acands@) == ann_cands(iv.take(u as int), r1.rows, src)
                    + iv[u as int].annotations.take(b as int).map_values(
                    |bm: BundleModel| ann_cand(bm.ann, rid),
                ),
                acands@.len() == total_anns(iv.take(u as int)) + b,
                0 <= total_anns(iv.take(u as int)),
            decreases m - b,
        {
            let bundle = &items[u].annotations[b];
            let mut fields: Vec<Option<String>> = Vec::new();
            fields.push(Some(bundle.annotation.text.clone()));
            fields.push(crate::store::clone_opt_string(&bundle.annotation.color));
            let cand = Candidate {
                native_id: bundle.annotation.id.clone(),
                parent: Some(rid),
                fields,
                aux: crate::store::clone_opt_string(&bundle.annotation.boundary),
            };
            proof {
                assert(items@[u as int]@ == iv[u as int]);
                assert(items@[u as int].annotations@[b as int]@ == iv[u as int].annotations[b as int]);
                assert(cand@.fields =~= ann_cand(iv[u as int].annotations[b as int].ann, rid).fields);
                assert(cand@ == ann_cand(iv[u as int].annotations[b as int].ann, rid));
            }
            let ghost before_a = acands@;
            acands.push(cand);
            proof {
                assert(cands_view(acands@) =~= cands_view(before_a).push(cand@));
                assert(iv[u as int].annotations.take(b + 1 as int) =~= iv[u as int].annotations.take(
                    b as int,
                ).push(iv[u as int].annotations[b as int]));
                assert(iv[u as int].annotations.take(b + 1 as int).map_values(
                    |bm: BundleModel| ann_cand(bm.ann, rid),
                ) =~= iv[u as int].annotations.take(b as int).map_values(
                    |bm: BundleModel| ann_cand(bm.ann, rid),
                ).push(ann_cand(iv[u as int].annotations[b as int].ann, rid)));
                assert(cands_view(acands@) =~= ann_cands(iv.take(u as int), r1.rows, src)
                    + iv[u as int].annotations.take(b + 1 as int).map_values(
                    |bm: BundleModel| ann_cand(bm.ann, rid),
                ));
            }
            b = b + 1;
        }
        proof {
            assert(iv[u as int].annotations.take(m as int) =~= iv[u as int].annotations);
            assert(iv.take(u + 1 as int).drop_last() =~= iv.take(u as int));
            assert(iv.take(u + 1 as int).last() == iv[u as int]);
            assert(item_ann_cands(iv[u as int], rid) =~= iv[u as int].annotations.map_values(
                |bm: BundleModel| ann_cand(bm.ann, rid),
            ));
            assert(cands_view(acands@) =~= ann_cands(iv.take(u + 1 as int), r1.rows, src));
        }
        u = u + 1;
    }
    proof {
        assert(iv.take(n as int) =~= iv);
    }
    let mut aseen = SeenSet::new();
    let mut ann_stats = SyncStats::new();
    proof {
        lemma_upsert_counts_bounded(m0ann, src, cands_view(acands@));
    }
    upsert_all(&mut catalog.annotations, "research", &acands, &mut aseen, &mut ann_stats);
    let ghost a1 = store_model(catalog.annotations);
    proof {
        assert(aseen@ =~= eids_of(src, ann_cands(iv, r1.rows, src)));
        crate::reconcile::lemma_store_wf_model(catalog.annotations);
        lemma_run_upserts_eids_live(m0ann, src, ann_cands(iv, r1.rows, src));
        let pf = |f: Seq<Option<Seq<char>>>| f.len() == 2 && f[0] is Some;
        let pp = |p: Option<i32>| p matches Some(q) && id_among(r1.rows, q);
        let pa = |a: Option<Seq<char>>| true;
        assert forall|j: int| 0 <= j < m0ann.rows.len() implies pf(
            (#[trigger] m0ann.rows[j]).fields,
        ) && pp(m0ann.rows[j].parent) && pa(m0ann.rows[j].aux) by {
            assert(annotation_row_shape(old(catalog).annotations.models()[j]));
            assert(id_among(m0res.rows, m0ann.rows[j].parent->0));
            lemma_run_upserts_ids(m0res, src, res_cands(iv), m0ann.rows[j].parent->0);
        }
        lemma_ann_cands_shape(iv, r1.rows, src);
        lemma_run_upserts_shaped(m0ann, src, ann_cands(iv, r1.rows, src), pf, pp, pa);
        assert forall|j: int| 0 <= j < a1.rows.len() implies ((#[trigger] a1.rows[j]).fields.len()
            == 2 && a1.rows[j].fields[0] is Some && (a1.rows[j].parent matches Some(q) && id_among(
            r1.rows,
            q,
        ))) by {
            assert(a1.rows[j] == run_upserts(m0ann, src, ann_cands(iv, r1.rows, src)).rows[j]);
            assert(pf(a1.rows[j].fields) && pp(a1.rows[j].parent));
        }
    }

    // comments under their annotations
    let mut ccands: Vec<Candidate> = Vec::new();
    let mut v: usize = 0;
    proof {
        assert(cands_view(ccands@) =~= comment_cands(iv.take(0), a1.rows, src));
    }
    while v < n
        invariant
            n == items@.len(),
            v <= n,
            iv == items_view(items@),
            src == "research"@,
            r1 == store_model(catalog.resources),
            a1 == store_model(catalog.annotations),
            catalog.annotations.wf(),
            forall|k: int|
                0 <= k < ann_cands(iv, r1.rows, src).len() ==> exists|w: int|
                    0 <= w < a1.rows.len() && row_live_eid(
                        #[trigger] a1.rows[w],
                        external_id_of(
                            src,
                            (#[trigger] ann_cands(iv, r1.rows, src)[k]).native_id,
                        ),
                    ),
            cands_view(ccands@) == comment_cands(iv.take(v as int), a1.rows, src),
            ccands@.len() == total_comments(iv.take(v as int)),
            0 <= total_comments(iv.take(v as int)),
        decreases n - v,
    {
        let m = items[v].annotations.len();
        let mut b: usize = 0;
        proof {
            assert(items@[v as int]@ == iv[v as int]);
            assert(bundles_comment_cands(iv[v as int].annotations.take(0), a1.rows, src) =~= Seq::<
                CandidateModel,
            >::empty());
            assert(cands_view(ccands@) =~= comment_cands(iv.take(v as int), a1.rows, src)
                + bundles_comment_cands(iv[v as int].annotations.take(0), a1.rows, src));
            lemma_bundles_comments_nonneg(iv[v as int].annotations.take(0));
        }
        while b < m
            invariant
                n == items@.len(),
                v < n,
                m == items@[v as int].annotations@.len(),
                b <= m,
                iv == items_view(items@),
                src == "research"@,
                r1 == store_model(catalog.resources),
                a1 == store_model(catalog.annotations),
                catalog.annotations.wf(),
                forall|k: int|
                    0 <= k < ann_cands(iv, r1.rows, src).len() ==> exists|w: int|
                        0 <= w < a1.rows.len() && row_live_eid(
                            #[trigger] a1.rows[w],
                            external_id_of(
                                src,
                                (#[trigger] ann_cands(iv, r1.rows, src)[k]).native_id,
                            ),
                        ),
                cands_view(ccands@) == comment_cands(iv.take(v as int), a1.rows, src)
                    + bundles_comment_cands(iv[v as int].annotations.take(b as int), a1.rows, src),
                ccands@.len() == total_comments(iv.take(v as int)) + bundles_comments(
                    iv[v as int].annotations.take(b as int),
                ),
                0 <= total_comments(iv.take(v as int)),
                0 <= bundles_comments(iv[v as int].annotations.take(b as int)),
            decreases m - b,
        {
            let bundle = &items[v].annotations[b];
            let eid = format_external_id("research", bundle.annotation.id.as_str());
            proof {
                assert(items@[v as int]@ == iv[v as int]);
                assert(items@[v as int].annotations@[b as int]@ == iv[v as int].annotations[b as int]);
                assert(eid@ == external_id_of(src, iv[v as int].annotations[b as int].ann.id));
                lemma_ann_cands_contains(iv, r1.rows, src, v as int, b as int);
            }
            let found = catalog.annotations.find_by_external_id(eid.as_str());
            let aid: i32 = match found {
                Some(row) => {
                    proof {
                        let w = choose|w: int|
                            0 <= w < a1.rows.len() && a1.rows[w] == row@ && row_live_eid(
                                row@,
                                eid@,
                            );
                        assert(find_live(a1.rows, eid@) is Some);
                        let j = find_live(a1.rows, eid@)->0;
                        assert(row_live_eid(a1.rows[j], eid@));
                        if j != w {
                            assert(a1.rows[j].external_id != a1.rows[w].external_id);
                        }
                        assert(row@.id == rid_of(
                            a1.rows,
                            src,
                            iv[v as int].annotations[b as int].ann.id,
                        ));
                    }
                    row.id
                },
                None => {
                    proof {
                        let k = choose|k: int|
                            0 <= k < ann_cands(iv, r1.rows, src).len() && (#[trigger] ann_cands(
                                iv,
                                r1.rows,
                                src,
                            )[k]).native_id == iv[v as int].annotations[b as int].ann.id;
                        assert(false);
                    }
                    0
                },
            };
            let cm = items[v].annotations[b].comments.len();
            let mut c: usize = 0;
            proof {
                let ghost bm = iv[v as int].annotations[b as int];
                assert(bm.comments.take(0).map_values(|x: CommentModel| comment_cand(x, aid))
                    =~= Seq::<CandidateModel>::empty());
                assert(cands_view(ccands@) =~= comment_cands(iv.take(v as int), a1.rows, src)
                    + bundles_comment_cands(iv[v as int].annotations.take(b as int), a1.rows, src)
                    + bm.comments.take(0).map_values(|x: CommentModel| comment_cand(x, aid)));
            }
            while c < cm
                invariant
                    n == items@.len(),
                    v < n,
                    b < m,
                    m == items@[v as int].annotations@.len(),
                    cm == items@[v as int].annotations@[b as int].comments@.len(),
                    c <= cm,
                    iv == items_view(items@),
                    src == "research"@,
                    a1 == store_model(catalog.annotations),
                    aid == rid_of(a1.rows, src, iv[v as int].annotations[b as int].ann.id),
                    cands_view(ccands@) == comment_cands(iv.take(v as int), a1.rows, src)
                        + bundles_comment_cands(
                        iv[v as int].annotations.take(b as int),
                        a1.rows,
                        src,
                    ) + iv[v as int].annotations[b as int].comments.take(c as int).map_values(
                        |x: CommentModel| comment_cand(x, aid),
                    ),
                    ccands@.len() == total_comments(iv.take(v as int)) + bundles_comments(
                        iv[v as int].annotations.take(b as int),
                    ) + c,
                    0 <= total_comments(iv.take(v as int)),
                    0 <= bundles_comments(iv[v as int].annotations.take(b as int)),
                decreases cm - c,
            {
                let com = &items[v].annotations[b].comments[c];
                let mut fields: Vec<Option<String>> = Vec::new();
                fields.push(Some(com.content.clone()));
                let cand = Candidate {
                    native_id: com.id.clone(),
                    parent: Some(aid),
                    fields,
                    aux: None,
                };
                proof {
                    let ghost bm = iv[v as int].annotations[b as int];
                    assert(items@[v as int]@ == iv[v as int]);
                    assert(items@[v as int].annotations@[b as int]@ == bm);
                    assert(items@[v as int].annotations@[b as int].comments@[c as int]@
                        == bm.comments[c as int]);
                    assert(cand@.fields =~= comment_cand(bm.comments[c as int], aid).fields);
                    assert(cand@ == comment_cand(bm.comments[c as int], aid));
                }
                let ghost before_c = ccands@;
                ccands.push(cand);
                proof {
                    let ghost bm = iv[v as int].annotations[b as int];
                    assert(cands_view(ccands@) =~= cands_view(before_c).push(cand@));
                    assert(bm.comments.take(c + 1 as int) =~= bm.comments.take(c as int).push(
                        bm.comments[c as int],
                    ));
                    assert(bm.comments.take(c + 1 as int).map_values(
                        |x: CommentModel| comment_cand(x, aid),
                    ) =~= bm.comments.take(c as int).map_values(
                        |x: CommentModel| comment_cand(x, aid),
                    ).push(comment_cand(bm.comments[c as int], aid)));
                    assert(cands_view(ccands@) =~= comment_cands(iv.take(v as int), a1.rows, src)
                        + bundles_comment_cands(
                        iv[v as int].annotations.take(b as int),
                        a1.rows,
                        src,
                    ) + bm.comments.take(c + 1 as int).map_values(
                        |x: CommentModel| comment_cand(x, aid),
                    ));
                }
                c = c + 1;
            }
            proof {
                let ghost bm = iv[v as int].annotations[b as int];
                assert(bm.comments.take(cm as int) =~= bm.comments);
                assert(iv[v as int].annotations.take(b + 1 as int).drop_last() =~= iv[v as int].annotations.take(
                    b as int,
                ));
                assert(iv[v as int].annotations.take(b + 1 as int).last() == bm);
                assert(bundle_comment_cands(bm, aid) =~= bm.comments.map_values(
                    |x: CommentModel| comment_cand(x, aid),
                ));
                assert(cands_view(ccands@) =~= comment_cands(iv.take(v as int), a1.rows, src)
                    + bundles_comment_cands(
                    iv[v as int].annotations.take(b + 1 as int),
                    a1.rows,
                    src,
                ));
            }
            b = b + 1;
        }
        proof {
            assert(iv[v as int].annotations.take(m as int) =~= iv[v as int].annotations);
            assert(iv.take(v + 1 as int).drop_last() =~= iv.take(v as int));
            assert(iv.take(v + 1 as int).last() == iv[v as int]);
            assert(cands_view(ccands@) =~= comment_cands(iv.take(v + 1 as int), a1.rows, src));
        }
        v = v + 1;
    }
    proof {
        assert(iv.take(n as int) =~= iv);
    }
    let mut cseen = SeenSet::new();
    let mut com_stats = SyncStats::new();
    proof {
        lemma_upsert_counts_bounded(m0com, src, cands_view(ccands@));
    }
    upsert_all(&mut catalog.comments, "research", &ccands, &mut cseen, &mut com_stats);
    let ghost c1 = store_model(catalog.comments);
    proof {
        assert(cseen@ =~= eids_of(src, comment_cands(iv, a1.rows, src)));
        let pf = |f: Seq<Option<Seq<char>>>| f.len() == 1 && f[0] is Some;
        let pp = |p: Option<i32>| p matches Some(q) && id_among(a1.rows, q);
        let pa = |a: Option<Seq<char>>| true;
        assert forall|j: int| 0 <= j < m0com.rows.len() implies pf(
            (#[trigger] m0com.rows[j]).fields,
        ) && pp(m0com.rows[j].parent) && pa(m0com.rows[j].aux) by {
            assert(comment_row_shape(old(catalog).comments.models()[j]));
            assert(id_among(m0ann.rows, m0com.rows[j].parent->0));
            lemma_run_upserts_ids(m0ann, src, ann_cands(iv, r1.rows, src), m0com.rows[j].parent->0);
        }
        assert forall|i3: int, b3: int|
            #![trigger iv[i3].annotations[b3]]
            0 <= i3 < iv.len() && 0 <= b3 < iv[i3].annotations.len() implies find_live(
            a1.rows,
            external_id_of(src, iv[i3].annotations[b3].ann.id),
        ) is Some by {
            lemma_ann_cands_contains(iv, r1.rows, src, i3, b3);
            let k = choose|k: int|
                0 <= k < ann_cands(iv, r1.rows, src).len() && (#[trigger] ann_cands(
                    iv,
                    r1.rows,
                    src,
                )[k]).native_id == iv[i3].annotations[b3].ann.id;
        }
        lemma_comment_cands_shape(iv, a1.rows, src);
        lemma_run_upserts_shaped(m0com, src, comment_cands(iv, a1.rows, src), pf, pp, pa);
        assert forall|j: int| 0 <= j < c1.rows.len() implies ((#[trigger] c1.rows[j]).fields.len()
            == 1 && c1.rows[j].fields[0] is Some && (c1.rows[j].parent matches Some(q) && id_among(
            a1.rows,
            q,
        ))) by {
            assert(c1.rows[j] == run_upserts(m0com, src, comment_cands(iv, a1.rows, src)).rows[j]);
            assert(pf(c1.rows[j].fields) && pp(c1.rows[j].parent));
        }
    }

    // notes under their resources
    let mut ncands: Vec<Candidate> = Vec::new();
    let mut w: usize = 0;
    proof {
        assert(cands_view(ncands@) =~= note_cands(iv.take(0), r1.rows, src));
    }
    while w < n
        invariant
            n == items@.len(),
            w <= n,
            iv == items_view(items@),
            src == "research"@,
            rids@.len() == n,
            forall|k: int| 0 <= k < n ==> #[trigger] rids@[k] == rid_of(r1.rows, src, iv[k].id),
            cands_view(ncands@) == note_cands(iv.take(w as int), r1.rows, src),
            ncands@.len() == total_notes(iv.take(w as int)),
            0 <= total_notes(iv.take(w as int)),
        decreases n - w,
    {
        let m = items[w].notes.len();
        let rid = rids[w];
        let mut j: usize = 0;
        proof {
            assert(items@[w as int]@ == iv[w as int]);
            assert(iv[w as int].notes.take(0).map_values(|x: NoteModel| note_cand(x, rid)) =~= Seq::<
                CandidateModel,
            >::empty());
            assert(cands_view(ncands@) =~= note_cands(iv.take(w as int), r1.rows, src)
                + iv[w as int].notes.take(0).map_values(|x: NoteModel| note_cand(x, rid)));
        }
        while j < m
            invariant
                n == items@.len(),
                w < n,
                m == items@[w as int].notes@.len(),
                j <= m,
                iv == items_view(items@),
                src == "research"@,
                rids@.len() == n,
                rid == rids@[w as int],
                rid == rid_of(r1.rows, src, iv[w as int].id),
                cands_view(ncands@) == note_cands(iv.take(w as int), r1.rows, src)
                    + iv[w as int].notes.take(j as int).map_values(
                    |x: NoteModel| note_cand(x, rid),
                ),
                ncands@.len() == total_notes(iv.take(w as int)) + j,
                0 <= total_notes(iv.take(w as int)),
            decreases m - j,
        {
            let note = &items[w].notes[j];
            let mut fields: Vec<Option<String>> = Vec::new();
            fields.push(Some(note.content.clone()));
            let cand = Candidate {
                native_id: note.id.clone(),
                parent: Some(rid),
                fields,
                aux: None,
            };
            proof {
                assert(items@[w as int]@ == iv[w as int]);
                assert(items@[w as int].notes@[j as int]@ == iv[w as int].notes[j as int]);
                assert(cand@.fields =~= note_cand(iv[w as int].notes[j as int], rid).fields);
                assert(cand@ == note_cand(iv[w as int].notes[j as int], rid));
            }
            let ghost before_n = ncands@;
            ncands.push(cand);
            proof {
                assert(cands_view(ncands@) =~= cands_view(before_n).push(cand@));
                assert(iv[w as int].notes.take(j + 1 as int) =~= iv[w as int].notes.take(
                    j as int,
                ).push(iv[w as int].notes[j as int]));
                assert(iv[w as int].notes.take(j + 1 as int).map_values(
                    |x: NoteModel| note_cand(x, rid),
                ) =~= iv[w as int].notes.take(j as int).map_values(
                    |x: NoteModel| note_cand(x, rid),
                ).push(note_cand(iv[w as int].notes[j as int], rid)));
                assert(cands_view(ncands@) =~= note_cands(iv.take(w as int), r1.rows, src)
                    + iv[w as int].notes.take(j + 1 as int).map_values(
                    |x: NoteModel| note_cand(x, rid),
                ));
            }
            j = j + 1;
        }
        proof {
            assert(iv[w as int].notes.take(m as int) =~= iv[w as int].notes);
            assert(iv.take(w + 1 as int).drop_last() =~= iv.take(w as int));
            assert(iv.take(w + 1 as int).last() == iv[w as int]);
            assert(item_note_cands(iv[w as int], rid) =~= iv[w as int].notes.map_values(
                |x: NoteModel| note_cand(x, rid),
            ));
            assert(cands_view(ncands@) =~= note_cands(iv.take(w + 1 as int), r1.rows, src));
        }
        w = w + 1;
    }
    proof {
        assert(iv.take(n as int) =~= iv);
    }
    let mut nseen = SeenSet::new();
    let mut note_stats = SyncStats::new();
    proof {
        lemma_upsert_counts_bounded(m0not, src, cands_view(ncands@));
    }
    upsert_all(&mut catalog.notes, "research", &ncands, &mut nseen, &mut note_stats);
    let ghost n1 = store_model(catalog.notes);
    proof {
        assert(nseen@ =~= eids_of(src, note_cands(iv, r1.rows, src)));
        let pf = |f: Seq<Option<Seq<char>>>| f.len() == 1 && f[0] is Some;
        let pp = |p: Option<i32>| p matches Some(q) && id_among(r1.rows, q);
        let pa = |a: Option<Seq<char>>| true;
        assert forall|j: int| 0 <= j < m0not.rows.len() implies pf(
            (#[trigger] m0not.rows[j]).fields,
        ) && pp(m0not.rows[j].parent) && pa(m0not.rows[j].aux) by {
            assert(note_row_shape(old(catalog).notes.models()[j]));
            assert(id_among(m0res.rows, m0not.rows[j].parent->0));
            lemma_run_upserts_ids(m0res, src, res_cands(iv), m0not.rows[j].parent->0);
        }
        lemma_note_cands_shape(iv, r1.rows, src);
        lemma_run_upserts_shaped(m0not, src, note_cands(iv, r1.rows, src), pf, pp, pa);
        assert forall|j: int| 0 <= j < n1.rows.len() implies ((#[trigger] n1.rows[j]).fields.len()
            == 1 && n1.rows[j].fields[0] is Some && (n1.rows[j].parent matches Some(q) && id_among(
            r1.rows,
            q,
        ))) by {
            assert(n1.rows[j] == run_upserts(m0not, src, note_cands(iv, r1.rows, src)).rows[j]);
            assert(pf(n1.rows[j].fields) && pp(n1.rows[j].parent));
        }
    }

    // orphan sweeps, bottom-up: comments, annotations, notes, resources
    proof {
        assert(a1 == store_model(catalog.annotations));
        lemma_run_upserts_len(m0com, src, comment_cands(iv, a1.rows, src));
    }
    sweep_orphans(&mut catalog.comments, "research", None, &cseen, &mut com_stats);
    proof {
        lemma_run_upserts_len(m0ann, src, ann_cands(iv, r1.rows, src));
        lemma_sweep_keeps_content(c1.rows, src, None, cseen@, c1.now);
    }
    sweep_orphans(&mut catalog.annotations, "research", None, &aseen, &mut ann_stats);
    proof {
        lemma_run_upserts_len(m0not, src, note_cands(iv, r1.rows, src));
        lemma_sweep_keeps_content(a1.rows, src, None, aseen@, a1.now);
    }
    sweep_orphans(&mut catalog.notes, "research", None, &nseen, &mut note_stats);
    proof {
        lemma_run_upserts_len(m0res, src, res_cands(iv));
        lemma_sweep_keeps_content(n1.rows, src, None, nseen@, n1.now);
    }
    sweep_orphans(&mut catalog.resources, "research", None, &rseen, &mut res_stats);
    proof {
        lemma_sweep_keeps_content(r1.rows, src, None, rseen@, r1.now);
        lemma_sweep_keeps_content(a1.rows, src, None, aseen@, a1.now);
        lemma_sweep_keeps_content(c1.rows, src, None, cseen@, c1.now);
        lemma_sweep_keeps_content(n1.rows, src, None, nseen@, n1.now);
        assert forall|j: int| 0 <= j < catalog.resources.models().len() implies resource_row_shape(
            #[trigger] catalog.resources.models()[j],
        ) by {
            assert(store_model(catalog.resources).rows[j] == catalog.resources.models()[j]);
            let cur = store_model(catalog.resources).rows[j];
            assert(cur == apply_sweep(r1.rows, src, None, rseen@, r1.now)[j]);
            assert(cur.fields == r1.rows[j].fields && cur.parent == r1.rows[j].parent && cur.aux
                == r1.rows[j].aux);
            assert(resource_row_shape(r1.rows[j]));
        }
        assert forall|j: int| 0 <= j < catalog.annotations.models().len() implies (
        annotation_row_shape(#[trigger] catalog.annotations.models()[j]) && id_among(
            catalog.resources.models(),
            catalog.annotations.models()[j].parent->0,
        )) by {
            assert(store_model(catalog.annotations).rows[j] == catalog.annotations.models()[j]);
            let cur = store_model(catalog.annotations).rows[j];
            assert(cur == apply_sweep(a1.rows, src, None, aseen@, a1.now)[j]);
            assert(cur.fields == a1.rows[j].fields && cur.parent == a1.rows[j].parent);
            assert(a1.rows[j].fields.len() == 2 && a1.rows[j].fields[0] is Some && (
            a1.rows[j].parent matches Some(q) && id_among(r1.rows, q)));
            let q = a1.rows[j].parent->0;
            let wq = choose|w2: int| 0 <= w2 < r1.rows.len() && (#[trigger] r1.rows[w2]).id == q;
            assert(store_model(catalog.resources).rows[wq]
                == apply_sweep(r1.rows, src, None, rseen@, r1.now)[wq]);
            assert(store_model(catalog.resources).rows[wq].id == q);
            assert(catalog.resources.models()[wq].id == q);
        }
        assert forall|j: int| 0 <= j < catalog.comments.models().len() implies (comment_row_shape(
            #[trigger] catalog.comments.models()[j],
        ) && id_among(catalog.annotations.models(), catalog.comments.models()[j].parent->0)) by {
            assert(store_model(catalog.comments).rows[j] == catalog.comments.models()[j]);
            let cur = store_model(catalog.comments).rows[j];
            assert(cur == apply_sweep(c1.rows, src, None, cseen@, c1.now)[j]);
            assert(cur.fields == c1.rows[j].fields && cur.parent == c1.rows[j].parent);
            assert(c1.rows[j].fields.len() == 1 && c1.rows[j].fields[0] is Some && (
            c1.rows[j].parent matches Some(q) && id_among(a1.rows, q)));
            let q = c1.rows[j].parent->0;
            let wq = choose|w2: int| 0 <= w2 < a1.rows.len() && (#[trigger] a1.rows[w2]).id == q;
            assert(store_model(catalog.annotations).rows[wq]
                == apply_sweep(a1.rows, src, None, aseen@, a1.now)[wq]);
            assert(store_model(catalog.annotations).rows[wq].id == q);
            assert(catalog.annotations.models()[wq].id == q);
        }
        assert forall|j: int| 0 <= j < catalog.notes.models().len() implies (note_row_shape(
            #[trigger] catalog.notes.models()[j],
        ) && id_among(catalog.resources.models(), catalog.notes.models()[j].parent->0)) by {
            assert(store_model(catalog.notes).rows[j] == catalog.notes.models()[j]);
            let cur = store_model(catalog.notes).rows[j];
            assert(cur == apply_sweep(n1.rows, src, None, nseen@, n1.now)[j]);
            assert(cur.fields == n1.rows[j].fields && cur.parent == n1.rows[j].parent);
            assert(n1.rows[j].fields.len() == 1 && n1.rows[j].fields[0] is Some && (
            n1.rows[j].parent matches Some(q) && id_among(r1.rows, q)));
            let q = n1.rows[j].parent->0;
            let wq = choose|w2: int| 0 <= w2 < r1.rows.len() && (#[trigger] r1.rows[w2]).id == q;
            assert(store_model(catalog.resources).rows[wq]
                == apply_sweep(r1.rows, src, None, rseen@, r1.now)[wq]);
            assert(store_model(catalog.resources).rows[wq].id == q);
            assert(catalog.resources.models()[wq].id == q);
        }
    }

    let mut resp = SyncResponse::new();
    resp.apply_resources(&res_stats);
    resp.apply_annotations(&ann_stats);
    resp.apply_comments(&com_stats);
    resp.apply_notes(&note_stats);
    resp
}

/// The schema migration for the research sync configuration table.
pub fn migrations() -> (r: Vec<(String, String)>)
    ensures
        r@.len() == 1,
        (r@[0].0)@ == "research_001_config.sql"@,
        (r@[0].1)@.len() > 0,
{
    proof {
        reveal_strlit("research_001_config.sql");
        reveal_strlit(
            "CREATE TABLE IF NOT EXISTS research_config (\n    id INTEGER PRIMARY KEY CHECK (id = 1),\n    db_path TEXT,\n    last_sync_at TEXT,\n    updated_at TEXT NOT NULL DEFAULT (strftime('%Y-%m-%dT%H:%M:%fZ', 'now'))\n);",
        );
    }
    let mut r: Vec<(String, String)> = Vec::new();
    r.push(
        (
            String::from_str("research_001_config.sql"),
            String::from_str(
                "CREATE TABLE IF NOT EXISTS research_config (\n    id INTEGER PRIMARY KEY CHECK (id = 1),\n    db_path TEXT,\n    last_sync_at TEXT,\n    updated_at TEXT NOT NULL DEFAULT (strftime('%Y-%m-%dT%H:%M:%fZ', 'now'))\n);",
            ),
        ),
    );
    r
}

} // verus!
