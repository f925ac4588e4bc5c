//! The book-catalog data model the service serves.
use vstd::prelude::*;

verus! {

/// One book with its catalog links.
pub struct Book {
    pub id: i32,
    pub title: String,
    pub download_url: String,
    pub cover_url: String,
    pub ratings: i32,
    pub author_ids: Vec<String>,
    pub tag_ids: Vec<String>,
    pub category_ids: Vec<String>,
    pub description: String,
    pub pages: i32,
}

pub struct Author {
    pub id: i32,
    pub name: String,
}

pub struct Tag {
    pub id: i32,
    pub name: String,
}

pub struct Category {
    pub id: i32,
    pub name: String,
}

pub struct Rating {
    pub id: i32,
    pub name: String,
}

/// An author with how many books carry it.
pub struct AuthorAggregate {
    pub author: Author,
    pub count: i32,
}

/// A tag with how many books carry it.
pub struct TagAggregate {
    pub tag: Tag,
    pub count: i32,
}

/// A rating with how many books carry it.
pub struct RatingAggregate {
    pub rating: Rating,
    pub count: i32,
}

/// A category with how many books carry it.
pub struct CategoryAggregate {
    pub category: Category,
    pub count: i32,
}

} // verus!
