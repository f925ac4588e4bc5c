//! The canonical hierarchical store: resources at the root, annotations
//! under resources, comments under annotations, notes under resources.
//!
//! Each kind lives in one [`EntityStore`]; the [`Catalog`] groups the four
//! and carries the cascade invariant: a child row always references an
//! existing parent row.
use vstd::prelude::*;

use crate::store::{is_live, opt_view, EntityStore, Row, RowModel};
use crate::reconcile::id_among;
use crate::textops::{lower_of, to_lowercase};

verus! {

/// What kind of reading material a resource is.
#[derive(Clone, Copy, PartialEq, Eq, Structural)]
pub enum ResourceType {
    Website,
    Pdf,
}

/// The tag under which a resource type is persisted.
pub open spec fn type_tag(t: ResourceType) -> Seq<char> {
    match t {
        ResourceType::Website => "website"@,
        ResourceType::Pdf => "pdf"@,
    }
}

impl ResourceType {
    /// The persisted tag of this type.
    pub fn as_str(&self) -> (r: &'static str)
        ensures
            r@ == type_tag(*self),
    {
        match self {
            ResourceType::Website => "website",
            ResourceType::Pdf => "pdf",
        }
    }

    /// Parses a tag, ignoring case.
    pub fn from_str(s: &str) -> (r: Option<Self>)
        ensures
            r == (if lower_of(s@) == "website"@ {
                Some(ResourceType::Website)
            } else if lower_of(s@) == "pdf"@ {
                Some(ResourceType::Pdf)
            } else {
                None::<ResourceType>
            }),
    {
        let lo = to_lowercase(s);
        if crate::str_eq(lo.as_str(), "website") {
            Some(ResourceType::Website)
        } else if crate::str_eq(lo.as_str(), "pdf") {
            Some(ResourceType::Pdf)
        } else {
            None
        }
    }
}

/// A root record: one read thing (a web page, a PDF).
pub struct Resource {
    pub id: i32,
    pub title: String,
    pub resource_type: ResourceType,
    pub external_id: Option<String>,
    pub content_hash: Option<String>,
    pub created_at: String,
    pub updated_at: String,
}

/// A highlighted passage of a resource.
pub struct Annotation {
    pub id: i32,
    pub resource_id: i32,
    pub text: String,
    pub color: Option<String>,
    pub boundary: Option<String>,
    pub external_id: Option<String>,
    pub content_hash: Option<String>,
    pub created_at: String,
    pub updated_at: String,
}

/// A remark attached to an annotation.
pub struct Comment {
    pub id: i32,
    pub annotation_id: i32,
    pub content: String,
    pub external_id: Option<String>,
    pub content_hash: Option<String>,
    pub created_at: String,
    pub updated_at: String,
}

/// A free-standing note attached to a resource.
pub struct Note {
    pub id: i32,
    pub resource_id: i32,
    pub content: String,
    pub external_id: Option<String>,
    pub content_hash: Option<String>,
    pub created_at: String,
    pub updated_at: String,
}

/// A vocabulary entry attached to a resource.
pub struct Word {
    pub id: i32,
    pub resource_id: i32,
    pub name: String,
    pub meaning: String,
    pub created_at: String,
    pub updated_at: String,
}

pub struct CreateResource {
    pub title: String,
    pub resource_type: ResourceType,
    pub external_id: Option<String>,
    pub content_hash: Option<String>,
}

pub struct UpdateResource {
    pub title: Option<String>,
    pub resource_type: Option<ResourceType>,
    pub content_hash: Option<String>,
}

pub struct CreateAnnotation {
    pub resource_id: i32,
    pub text: String,
    pub color: Option<String>,
    pub boundary: Option<String>,
    pub external_id: Option<String>,
    pub content_hash: Option<String>,
}

pub struct UpdateAnnotation {
    pub text: Option<String>,
    pub color: Option<String>,
    pub boundary: Option<String>,
    pub content_hash: Option<String>,
}

pub struct CreateComment {
    pub annotation_id: i32,
    pub content: String,
    pub external_id: Option<String>,
    pub content_hash: Option<String>,
}

pub struct UpdateComment {
    pub content: String,
    pub content_hash: Option<String>,
}

pub struct CreateNote {
    pub resource_id: i32,
    pub content: String,
    pub external_id: Option<String>,
    pub content_hash: Option<String>,
}

pub struct UpdateNote {
    pub content: String,
    pub content_hash: Option<String>,
}

pub struct CreateWord {
    pub resource_id: i32,
    pub name: String,
    pub meaning: String,
}

pub struct UpdateWord {
    pub name: Option<String>,
    pub meaning: Option<String>,
}

impl crate::sync::Syncable for Resource {
    open spec fn spec_id(&self) -> i32 {
        self.id
    }

    open spec fn spec_external_id(&self) -> Option<Seq<char>> {
        opt_view(self.external_id)
    }

    open spec fn spec_content_hash(&self) -> Option<Seq<char>> {
        opt_view(self.content_hash)
    }

    fn id(&self) -> i32 {
        self.id
    }

    fn external_id(&self) -> (r: Option<&str>) {
        match &self.external_id {
            Some(s) => Some(s.as_str()),
            None => None,
        }
    }

    fn content_hash(&self) -> (r: Option<&str>) {
        match &self.content_hash {
            Some(s) => Some(s.as_str()),
            None => None,
        }
    }
}

impl crate::sync::Syncable for Annotation {
    open spec fn spec_id(&self) -> i32 {
        self.id
    }

    open spec fn spec_external_id(&self) -> Option<Seq<char>> {
        opt_view(self.external_id)
    }

    open spec fn spec_content_hash(&self) -> Option<Seq<char>> {
        opt_view(self.content_hash)
    }

    fn id(&self) -> i32 {
        self.id
    }

    fn external_id(&self) -> (r: Option<&str>) {
        match &self.external_id {
            Some(s) => Some(s.as_str()),
            None => None,
        }
    }

    fn content_hash(&self) -> (r: Option<&str>) {
        match &self.content_hash {
            Some(s) => Some(s.as_str()),
            None => None,
        }
    }
}

impl crate::sync::Syncable for Comment {
    open spec fn spec_id(&self) -> i32 {
        self.id
    }

    open spec fn spec_external_id(&self) -> Option<Seq<char>> {
        opt_view(self.external_id)
    }

    open spec fn spec_content_hash(&self) -> Option<Seq<char>> {
        opt_view(self.content_hash)
    }

    fn id(&self) -> i32 {
        self.id
    }

    fn external_id(&self) -> (r: Option<&str>) {
        match &self.external_id {
            Some(s) => Some(s.as_str()),
            None => None,
        }
    }

    fn content_hash(&self) -> (r: Option<&str>) {
        match &self.content_hash {
            Some(s) => Some(s.as_str()),
            None => None,
        }
    }
}

impl crate::sync::Syncable for Note {
    open spec fn spec_id(&self) -> i32 {
        self.id
    }

    open spec fn spec_external_id(&self) -> Option<Seq<char>> {
        opt_view(self.external_id)
    }

    open spec fn spec_content_hash(&self) -> Option<Seq<char>> {
        opt_view(self.content_hash)
    }

    fn id(&self) -> i32 {
        self.id
    }

    fn external_id(&self) -> (r: Option<&str>) {
        match &self.external_id {
            Some(s) => Some(s.as_str()),
            None => None,
        }
    }

    fn content_hash(&self) -> (r: Option<&str>) {
        match &self.content_hash {
            Some(s) => Some(s.as_str()),
            None => None,
        }
    }
}

/// The row shape a resource is persisted in: one semantic field (the title),
/// no parent, and the type tag as payload.
pub open spec fn resource_row_shape(m: RowModel) -> bool {
    &&& m.fields.len() == 1
    &&& m.fields[0] is Some
    &&& m.parent is None
    &&& (m.aux == Some("website"@) || m.aux == Some("pdf"@))
}

/// The row shape of an annotation: text and optional color, a resource
/// parent, and the boundary payload.
pub open spec fn annotation_row_shape(m: RowModel) -> bool {
    &&& m.fields.len() == 2
    &&& m.fields[0] is Some
    &&& m.parent is Some
}

/// The row shape of a comment: its body, under an annotation.
pub open spec fn comment_row_shape(m: RowModel) -> bool {
    &&& m.fields.len() == 1
    &&& m.fields[0] is Some
    &&& m.parent is Some
}

/// The row shape of a note: its body, under a resource.
pub open spec fn note_row_shape(m: RowModel) -> bool {
    &&& m.fields.len() == 1
    &&& m.fields[0] is Some
    &&& m.parent is Some
}

/// Reads a resource out of its row.
pub fn row_to_resource(row: &Row) -> (r: Resource)
    requires
        resource_row_shape(row@),
    ensures
        r.id == row@.id,
        r.title@ == row@.fields[0]->0,
        type_tag(r.resource_type) == row@.aux->0,
        opt_view(r.external_id) == row@.external_id,
        opt_view(r.content_hash) == row@.content_hash,
        r.created_at@ == row@.created_at,
        r.updated_at@ == row@.updated_at,
{
    proof {
        reveal_strlit("website");
        reveal_strlit("pdf");
    }
    let title = match &row.fields[0] {
        Some(t) => t.clone(),
        None => String::new(),
    };
    let resource_type = match &row.aux {
        Some(tag) => {
            if crate::str_eq(tag.as_str(), "website") {
                ResourceType::Website
            } else {
                ResourceType::Pdf
            }
        },
        None => ResourceType::Website,
    };
    Resource {
        id: row.id,
        title,
        resource_type,
        external_id: crate::store::clone_opt_string(&row.external_id),
        content_hash: crate::store::clone_opt_string(&row.content_hash),
        created_at: row.created_at.clone(),
        updated_at: row.updated_at.clone(),
    }
}

/// Reads an annotation out of its row.
pub fn row_to_annotation(row: &Row) -> (r: Annotation)
    requires
        annotation_row_shape(row@),
    ensures
        r.id == row@.id,
        Some(r.resource_id) == row@.parent,
        r.text@ == row@.fields[0]->0,
        opt_view(r.color) == row@.fields[1],
        opt_view(r.boundary) == row@.aux,
        opt_view(r.external_id) == row@.external_id,
        opt_view(r.content_hash) == row@.content_hash,
        r.created_at@ == row@.created_at,
        r.updated_at@ == row@.updated_at,
{
    let text = match &row.fields[0] {
        Some(t) => t.clone(),
        None => String::new(),
    };
    let color = crate::store::clone_opt_string(&row.fields[1]);
    let resource_id = match row.parent {
        Some(p) => p,
        None => 0,
    };
    Annotation {
        id: row.id,
        resource_id,
        text,
        color,
        boundary: crate::store::clone_opt_string(&row.aux),
        external_id: crate::store::clone_opt_string(&row.external_id),
        content_hash: crate::store::clone_opt_string(&row.content_hash),
        created_at: row.created_at.clone(),
        updated_at: row.updated_at.clone(),
    }
}

/// Reads a comment out of its row.
pub fn row_to_comment(row: &Row) -> (r: Comment)
    requires
        comment_row_shape(row@),
    ensures
        r.id == row@.id,
        Some(r.annotation_id) == row@.parent,
        r.content@ == row@.fields[0]->0,
        opt_view(r.external_id) == row@.external_id,
        opt_view(r.content_hash) == row@.content_hash,
        r.created_at@ == row@.created_at,
        r.updated_at@ == row@.updated_at,
{
    let content = match &row.fields[0] {
        Some(t) => t.clone(),
        None => String::new(),
    };
    let annotation_id = match row.parent {
        Some(p) => p,
        None => 0,
    };
    Comment {
        id: row.id,
        annotation_id,
        content,
        external_id: crate::store::clone_opt_string(&row.external_id),
        content_hash: crate::store::clone_opt_string(&row.content_hash),
        created_at: row.created_at.clone(),
        updated_at: row.updated_at.clone(),
    }
}

/// Reads a note out of its row.
pub fn row_to_note(row: &Row) -> (r: Note)
    requires
        note_row_shape(row@),
    ensures
        r.id == row@.id,
        Some(r.resource_id) == row@.parent,
        r.content@ == row@.fields[0]->0,
        opt_view(r.external_id) == row@.external_id,
        opt_view(r.content_hash) == row@.content_hash,
        r.created_at@ == row@.created_at,
        r.updated_at@ == row@.updated_at,
{
    let content = match &row.fields[0] {
        Some(t) => t.clone(),
        None => String::new(),
    };
    let resource_id = match row.parent {
        Some(p) => p,
        None => 0,
    };
    Note {
        id: row.id,
        resource_id,
        content,
        external_id: crate::store::clone_opt_string(&row.external_id),
        content_hash: crate::store::clone_opt_string(&row.content_hash),
        created_at: row.created_at.clone(),
        updated_at: row.updated_at.clone(),
    }
}

/// The four entity stores of the canonical library.
pub struct Catalog {
    pub resources: EntityStore,
    pub annotations: EntityStore,
    pub comments: EntityStore,
    pub notes: EntityStore,
}

impl Catalog {
    /// Every store is well-formed and every row has its kind's shape.
    pub open spec fn wf(self) -> bool {
        &&& self.resources.wf()
        &&& self.annotations.wf()
        &&& self.comments.wf()
        &&& self.notes.wf()
        &&& forall|i: int|
            0 <= i < self.resources.models().len() ==> resource_row_shape(
                #[trigger] self.resources.models()[i],
            )
        &&& forall|i: int|
            0 <= i < self.annotations.models().len() ==> annotation_row_shape(
                #[trigger] self.annotations.models()[i],
            )
        &&& forall|i: int|
            0 <= i < self.comments.models().len() ==> comment_row_shape(
                #[trigger] self.comments.models()[i],
            )
        &&& forall|i: int|
            0 <= i < self.notes.models().len() ==> note_row_shape(
                #[trigger] self.notes.models()[i],
            )
    }

    /// Cascade integrity: every child row — live or soft-deleted — references
    /// a parent row that exists in the parent kind's store.
    pub open spec fn integrity(self) -> bool {
        &&& forall|i: int|
            0 <= i < self.annotations.models().len() ==> id_among(
                self.resources.models(),
                (#[trigger] self.annotations.models()[i]).parent->0,
            )
        &&& forall|i: int|
            0 <= i < self.comments.models().len() ==> id_among(
                self.annotations.models(),
                (#[trigger] self.comments.models()[i]).parent->0,
            )
        &&& forall|i: int|
            0 <= i < self.notes.models().len() ==> id_among(
                self.resources.models(),
                (#[trigger] self.notes.models()[i]).parent->0,
            )
    }

    /// An empty library.
    pub fn new() -> (r: Catalog)
        ensures
            r.wf(),
            r.integrity(),
            r.resources.models().len() == 0,
            r.annotations.models().len() == 0,
            r.comments.models().len() == 0,
            r.notes.models().len() == 0,
            r.resources.next_id == 1,
            r.annotations.next_id == 1,
            r.comments.next_id == 1,
            r.notes.next_id == 1,
    {
        Catalog {
            resources: EntityStore::new(),
            annotations: EntityStore::new(),
            comments: EntityStore::new(),
            notes: EntityStore::new(),
        }
    }

    /// Stamps all four stores with the timestamp label for subsequent writes.
    pub fn set_now(&mut self, now: &str)
        ensures
            final(self).resources.models() == old(self).resources.models(),
            final(self).annotations.models() == old(self).annotations.models(),
            final(self).comments.models() == old(self).comments.models(),
            final(self).notes.models() == old(self).notes.models(),
            final(self).resources.next_id == old(self).resources.next_id,
            final(self).annotations.next_id == old(self).annotations.next_id,
            final(self).comments.next_id == old(self).comments.next_id,
            final(self).notes.next_id == old(self).notes.next_id,
            final(self).resources.now@ == now@,
            final(self).annotations.now@ == now@,
            final(self).comments.now@ == now@,
            final(self).notes.now@ == now@,
    {
        self.resources.set_now(String::from_str(now));
        self.annotations.set_now(String::from_str(now));
        self.comments.set_now(String::from_str(now));
        self.notes.set_now(String::from_str(now));
    }

    /// Looks a live resource up by its external id.
    pub fn find_resource_by_external_id(&self, eid: &str) -> (r: Option<Resource>)
        requires
            self.wf(),
        ensures
            match r {
                Some(res) => exists|i: int|
                    0 <= i < self.resources.models().len() && crate::store::row_live_eid(
                        #[trigger] self.resources.models()[i],
                        eid@,
                    ) && res.id == self.resources.models()[i].id && opt_view(res.content_hash)
                        == self.resources.models()[i].content_hash && res.title@
                        == self.resources.models()[i].fields[0]->0,
                None => forall|i: int|
                    0 <= i < self.resources.models().len() ==> !crate::store::row_live_eid(
                        #[trigger] self.resources.models()[i],
                        eid@,
                    ),
            },
    {
        match self.resources.find_by_external_id(eid) {
            Some(row) => Some(row_to_resource(&row)),
            None => None,
        }
    }

    /// Looks a live annotation up by its external id.
    pub fn find_annotation_by_external_id(&self, eid: &str) -> (r: Option<Annotation>)
        requires
            self.wf(),
        ensures
            match r {
                Some(a) => exists|i: int|
                    0 <= i < self.annotations.models().len() && crate::store::row_live_eid(
                        #[trigger] self.annotations.models()[i],
                        eid@,
                    ) && a.id == self.annotations.models()[i].id && opt_view(a.content_hash)
                        == self.annotations.models()[i].content_hash && a.text@
                        == self.annotations.models()[i].fields[0]->0 && Some(a.resource_id)
                        == self.annotations.models()[i].parent,
                None => forall|i: int|
                    0 <= i < self.annotations.models().len() ==> !crate::store::row_live_eid(
                        #[trigger] self.annotations.models()[i],
                        eid@,
                    ),
            },
    {
        match self.annotations.find_by_external_id(eid) {
            Some(row) => Some(row_to_annotation(&row)),
            None => None,
        }
    }

    /// Looks a live comment up by its external id.
    pub fn find_comment_by_external_id(&self, eid: &str) -> (r: Option<Comment>)
        requires
            self.wf(),
        ensures
            match r {
                Some(c) => exists|i: int|
                    0 <= i < self.comments.models().len() && crate::store::row_live_eid(
                        #[trigger] self.comments.models()[i],
                        eid@,
                    ) && c.id == self.comments.models()[i].id && opt_view(c.content_hash)
                        == self.comments.models()[i].content_hash && c.content@
                        == self.comments.models()[i].fields[0]->0,
                None => forall|i: int|
                    0 <= i < self.comments.models().len() ==> !crate::store::row_live_eid(
                        #[trigger] self.comments.models()[i],
                        eid@,
                    ),
            },
    {
        match self.comments.find_by_external_id(eid) {
            Some(row) => Some(row_to_comment(&row)),
            None => None,
        }
    }

    /// Looks a live note up by its external id.
    pub fn find_note_by_external_id(&self, eid: &str) -> (r: Option<Note>)
        requires
            self.wf(),
        ensures
            match r {
                Some(n) => exists|i: int|
                    0 <= i < self.notes.models().len() && crate::store::row_live_eid(
                        #[trigger] self.notes.models()[i],
                        eid@,
                    ) && n.id == self.notes.models()[i].id && opt_view(n.content_hash)
                        == self.notes.models()[i].content_hash && n.content@
                        == self.notes.models()[i].fields[0]->0,
                None => forall|i: int|
                    0 <= i < self.notes.models().len() ==> !crate::store::row_live_eid(
                        #[trigger] self.notes.models()[i],
                        eid@,
                    ),
            },
    {
        match self.notes.find_by_external_id(eid) {
            Some(row) => Some(row_to_note(&row)),
            None => None,
        }
    }

    /// Looks a live resource up by its title.
    pub fn find_resource_by_title(&self, title: &str) -> (r: Option<Resource>)
        requires
            self.wf(),
        ensures
            match r {
                Some(res) => exists|i: int|
                    0 <= i < self.resources.models().len() && crate::store::row_live_first_field(
                        #[trigger] self.resources.models()[i],
                        title@,
                    ) && res.id == self.resources.models()[i].id && res.title@ == title@,
                None => forall|i: int|
                    0 <= i < self.resources.models().len() ==> !crate::store::row_live_first_field(
                        #[trigger] self.resources.models()[i],
                        title@,
                    ),
            },
    {
        proof {
            crate::store::lemma_first_live_title(self.resources.models(), title@);
        }
        match self.resources.find_by_first_field(title) {
            Some(row) => Some(row_to_resource(&row)),
            None => None,
        }
    }
}

/// The schema migrations the library's persistence layer runs at startup,
/// name and statement text, in order.
pub fn migrations() -> (r: Vec<(String, String)>)
    ensures
        r@.len() == 1,
        (r@[0].0)@ == "commonplace_001_schema.sql"@,
        (r@[0].1)@.len() > 0,
{
    proof {
        reveal_strlit("commonplace_001_schema.sql");
        reveal_strlit(
            "CREATE TABLE IF NOT EXISTS resources (\n    id INTEGER PRIMARY KEY AUTOINCREMENT,\n    title TEXT NOT NULL,\n    type TEXT NOT NULL,\n    external_id TEXT,\n    content_hash TEXT,\n    created_at TEXT NOT NULL DEFAULT (strftime('%Y-%m-%dT%H:%M:%fZ', 'now')),\n    updated_at TEXT NOT NULL DEFAULT (strftime('%Y-%m-%dT%H:%M:%fZ', 'now')),\n    deleted_at TEXT\n);\nCREATE UNIQUE INDEX IF NOT EXISTS idx_resources_external_id ON resources(external_id) WHERE deleted_at IS NULL;\nCREATE TABLE IF NOT EXISTS annotations (\n    id INTEGER PRIMARY KEY AUTOINCREMENT,\n    resource_id INTEGER NOT NULL REFERENCES resources(id),\n    text TEXT NOT NULL,\n    color TEXT,\n    boundary TEXT,\n    external_id TEXT,\n    content_hash TEXT,\n    created_at TEXT NOT NULL DEFAULT (strftime('%Y-%m-%dT%H:%M:%fZ', 'now')),\n    updated_at TEXT NOT NULL DEFAULT (strftime('%Y-%m-%dT%H:%M:%fZ', 'now')),\n    deleted_at TEXT\n);\nCREATE UNIQUE INDEX IF NOT EXISTS idx_annotations_external_id ON annotations(external_id) WHERE deleted_at IS NULL;\nCREATE TABLE IF NOT EXISTS comments (\n    id INTEGER PRIMARY KEY AUTOINCREMENT,\n    annotation_id INTEGER NOT NULL REFERENCES annotations(id),\n    content TEXT NOT NULL,\n    external_id TEXT,\n    content_hash TEXT,\n    created_at TEXT NOT NULL DEFAULT (strftime('%Y-%m-%dT%H:%M:%fZ', 'now')),\n    updated_at TEXT NOT NULL DEFAULT (strftime('%Y-%m-%dT%H:%M:%fZ', 'now')),\n    deleted_at TEXT\n);\nCREATE UNIQUE INDEX IF NOT EXISTS idx_comments_external_id ON comments(external_id) WHERE deleted_at IS NULL;\nCREATE TABLE IF NOT EXISTS notes (\n    id INTEGER PRIMARY KEY AUTOINCREMENT,\n    resource_id INTEGER NOT NULL REFERENCES resources(id),\n    content TEXT NOT NULL,\n    external_id TEXT,\n    content_hash TEXT,\n    created_at TEXT NOT NULL DEFAULT (strftime('%Y-%m-%dT%H:%M:%fZ', 'now')),\n    updated_at TEXT NOT NULL DEFAULT (strftime('%Y-%m-%dT%H:%M:%fZ', 'now')),\n    deleted_at TEXT\n);\nCREATE UNIQUE INDEX IF NOT EXISTS idx_notes_external_id ON notes(external_id) WHERE deleted_at IS NULL;\nCREATE TABLE IF NOT EXISTS words (\n    id INTEGER PRIMARY KEY AUTOINCREMENT,\n    resource_id INTEGER NOT NULL REFERENCES resources(id),\n    name TEXT NOT NULL,\n    meaning TEXT NOT NULL,\n    created_at TEXT NOT NULL DEFAULT (strftime('%Y-%m-%dT%H:%M:%fZ', 'now')),\n    updated_at TEXT NOT NULL DEFAULT (strftime('%Y-%m-%dT%H:%M:%fZ', 'now')),\n    deleted_at TEXT\n);",
        );
    }
    let mut r: Vec<(String, String)> = Vec::new();
    r.push(
        (
            String::from_str("commonplace_001_schema.sql"),
            String::from_str(
                "CREATE TABLE IF NOT EXISTS resources (\n    id INTEGER PRIMARY KEY AUTOINCREMENT,\n    title TEXT NOT NULL,\n    type TEXT NOT NULL,\n    external_id TEXT,\n    content_hash TEXT,\n    created_at TEXT NOT NULL DEFAULT (strftime('%Y-%m-%dT%H:%M:%fZ', 'now')),\n    updated_at TEXT NOT NULL DEFAULT (strftime('%Y-%m-%dT%H:%M:%fZ', 'now')),\n    deleted_at TEXT\n);\nCREATE UNIQUE INDEX IF NOT EXISTS idx_resources_external_id ON resources(external_id) WHERE deleted_at IS NULL;\nCREATE TABLE IF NOT EXISTS annotations (\n    id INTEGER PRIMARY KEY AUTOINCREMENT,\n    resource_id INTEGER NOT NULL REFERENCES resources(id),\n    text TEXT NOT NULL,\n    color TEXT,\n    boundary TEXT,\n    external_id TEXT,\n    content_hash TEXT,\n    created_at TEXT NOT NULL DEFAULT (strftime('%Y-%m-%dT%H:%M:%fZ', 'now')),\n    updated_at TEXT NOT NULL DEFAULT (strftime('%Y-%m-%dT%H:%M:%fZ', 'now')),\n    deleted_at TEXT\n);\nCREATE UNIQUE INDEX IF NOT EXISTS idx_annotations_external_id ON annotations(external_id) WHERE deleted_at IS NULL;\nCREATE TABLE IF NOT EXISTS comments (\n    id INTEGER PRIMARY KEY AUTOINCREMENT,\n    annotation_id INTEGER NOT NULL REFERENCES annotations(id),\n    content TEXT NOT NULL,\n    external_id TEXT,\n    content_hash TEXT,\n    created_at TEXT NOT NULL DEFAULT (strftime('%Y-%m-%dT%H:%M:%fZ', 'now')),\n    updated_at TEXT NOT NULL DEFAULT (strftime('%Y-%m-%dT%H:%M:%fZ', 'now')),\n    deleted_at TEXT\n);\nCREATE UNIQUE INDEX IF NOT EXISTS idx_comments_external_id ON comments(external_id) WHERE deleted_at IS NULL;\nCREATE TABLE IF NOT EXISTS notes (\n    id INTEGER PRIMARY KEY AUTOINCREMENT,\n    resource_id INTEGER NOT NULL REFERENCES resources(id),\n    content TEXT NOT NULL,\n    external_id TEXT,\n    content_hash TEXT,\n    created_at TEXT NOT NULL DEFAULT (strftime('%Y-%m-%dT%H:%M:%fZ', 'now')),\n    updated_at TEXT NOT NULL DEFAULT (strftime('%Y-%m-%dT%H:%M:%fZ', 'now')),\n    deleted_at TEXT\n);\nCREATE UNIQUE INDEX IF NOT EXISTS idx_notes_external_id ON notes(external_id) WHERE deleted_at IS NULL;\nCREATE TABLE IF NOT EXISTS words (\n    id INTEGER PRIMARY KEY AUTOINCREMENT,\n    resource_id INTEGER NOT NULL REFERENCES resources(id),\n    name TEXT NOT NULL,\n    meaning TEXT NOT NULL,\n    created_at TEXT NOT NULL DEFAULT (strftime('%Y-%m-%dT%H:%M:%fZ', 'now')),\n    updated_at TEXT NOT NULL DEFAULT (strftime('%Y-%m-%dT%H:%M:%fZ', 'now')),\n    deleted_at TEXT\n);",
            ),
        ),
    );
    r
}

} // verus!
