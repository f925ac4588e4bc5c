//! Classification of per-record sync outcomes and the counters they feed.
use vstd::prelude::*;

verus! {

/// Outcome of upserting one candidate record against the store.
pub enum SyncResult<T> {
    Created(T),
    Updated(T),
    Unchanged(T),
    Error,
}

/// Counters aggregated over one reconciliation pass of one entity kind.
#[derive(Clone, Copy)]
pub struct SyncStats {
    pub created: i32,
    pub updated: i32,
    pub deleted: i32,
    pub unchanged: i32,
    pub errors: i32,
}

impl SyncStats {
    pub fn new() -> (r: SyncStats)
        ensures
            r.created == 0 && r.updated == 0 && r.deleted == 0 && r.unchanged == 0 && r.errors
                == 0,
    {
        SyncStats { created: 0, updated: 0, deleted: 0, unchanged: 0, errors: 0 }
    }

    pub fn record_created(&mut self)
        requires
            old(self).created < i32::MAX,
        ensures
            *final(self) == (SyncStats { created: (old(self).created + 1) as i32, ..*old(self) }),
    {
        self.created = self.created + 1;
    }

    pub fn record_updated(&mut self)
        requires
            old(self).updated < i32::MAX,
        ensures
            *final(self) == (SyncStats { updated: (old(self).updated + 1) as i32, ..*old(self) }),
    {
        self.updated = self.updated + 1;
    }

    pub fn record_deleted(&mut self)
        requires
            old(self).deleted < i32::MAX,
        ensures
            *final(self) == (SyncStats { deleted: (old(self).deleted + 1) as i32, ..*old(self) }),
    {
        self.deleted = self.deleted + 1;
    }

    pub fn record_unchanged(&mut self)
        requires
            old(self).unchanged < i32::MAX,
        ensures
            *final(self) == (SyncStats { unchanged: (old(self).unchanged + 1) as i32, ..*old(self) }),
    {
        self.unchanged = self.unchanged + 1;
    }

    pub fn record_error(&mut self)
        requires
            old(self).errors < i32::MAX,
        ensures
            *final(self) == (SyncStats { errors: (old(self).errors + 1) as i32, ..*old(self) }),
    {
        self.errors = self.errors + 1;
    }
}

impl Default for SyncStats {
    fn default() -> (r: SyncStats)
        ensures
            r.created == 0 && r.updated == 0 && r.deleted == 0 && r.unchanged == 0 && r.errors
                == 0,
    {
        SyncStats::new()
    }
}

impl<T: Copy> SyncResult<T> {
    /// Adds this outcome to the counters; hands back the id for a successful outcome.
    pub fn record(self, stats: &mut SyncStats) -> (r: Option<T>)
        requires
            old(stats).created < i32::MAX,
            old(stats).updated < i32::MAX,
            old(stats).unchanged < i32::MAX,
        ensures
            match self {
                SyncResult::Created(id) => r == Some(id) && *final(stats) == (SyncStats {
                    created: (old(stats).created + 1) as i32,
                    ..*old(stats)
                }),
                SyncResult::Updated(id) => r == Some(id) && *final(stats) == (SyncStats {
                    updated: (old(stats).updated + 1) as i32,
                    ..*old(stats)
                }),
                SyncResult::Unchanged(id) => r == Some(id) && *final(stats) == (SyncStats {
                    unchanged: (old(stats).unchanged + 1) as i32,
                    ..*old(stats)
                }),
                SyncResult::Error => r is None && *final(stats) == *old(stats),
            },
    {
        match self {
            SyncResult::Created(id) => {
                stats.record_created();
                Some(id)
            },
            SyncResult::Updated(id) => {
                stats.record_updated();
                Some(id)
            },
            SyncResult::Unchanged(id) => {
                stats.record_unchanged();
                Some(id)
            },
            SyncResult::Error => None,
        }
    }
}

impl SyncResult<()> {
    /// Adds this outcome to the counters, discarding the payload.
    pub fn record_unit(self, stats: &mut SyncStats)
        requires
            old(stats).created < i32::MAX,
            old(stats).updated < i32::MAX,
            old(stats).unchanged < i32::MAX,
        ensures
            match self {
                SyncResult::Created(_) => *final(stats) == (SyncStats {
                    created: (old(stats).created + 1) as i32,
                    ..*old(stats)
                }),
                SyncResult::Updated(_) => *final(stats) == (SyncStats {
                    updated: (old(stats).updated + 1) as i32,
                    ..*old(stats)
                }),
                SyncResult::Unchanged(_) => *final(stats) == (SyncStats {
                    unchanged: (old(stats).unchanged + 1) as i32,
                    ..*old(stats)
                }),
                SyncResult::Error => *final(stats) == *old(stats),
            },
    {
        match self {
            SyncResult::Created(_) => stats.record_created(),
            SyncResult::Updated(_) => stats.record_updated(),
            SyncResult::Unchanged(_) => stats.record_unchanged(),
            SyncResult::Error => {},
        }
    }
}

/// What the reconciler needs of any entity kind: its stable id, its optional
/// namespaced external id, and the fingerprint of its semantic fields.
pub trait Syncable {
    spec fn spec_id(&self) -> i32;

    spec fn spec_external_id(&self) -> Option<Seq<char>>;

    spec fn spec_content_hash(&self) -> Option<Seq<char>>;

    fn id(&self) -> (r: i32)
        ensures
            r == self.spec_id(),
    ;

    fn external_id(&self) -> (r: Option<&str>)
        ensures
            (match r {
                Some(s) => self.spec_external_id() == Some(s@),
                None => self.spec_external_id() is None,
            }),
    ;

    fn content_hash(&self) -> (r: Option<&str>)
        ensures
            (match r {
                Some(s) => self.spec_content_hash() == Some(s@),
                None => self.spec_content_hash() is None,
            }),
    ;
}

/// Answers whether an existing record already carries this fingerprint, so
/// that the upsert is a no-op.
pub fn is_unchanged<T: Syncable>(existing: &T, new_hash: &str) -> (r: bool)
    ensures
        r == (existing.spec_content_hash() == Some(new_hash@)),
{
    match existing.content_hash() {
        Some(h) => crate::str_eq(h, new_hash),
        None => false,
    }
}

/// Turns the store's answer to an update into a classification: a vanished
/// row (the check-then-act race) and a store failure both count as an error.
pub fn handle_update_result<T, E>(result: Result<Option<T>, E>, id: i32) -> (r: SyncResult<i32>)
    ensures
        match result {
            Ok(Some(_)) => r == SyncResult::<i32>::Updated(id),
            Ok(None) => r is Error,
            Err(_) => r is Error,
        },
{
    match result {
        Ok(Some(_)) => SyncResult::Updated(id),
        Ok(None) => SyncResult::Error,
        Err(_) => SyncResult::Error,
    }
}

/// As `handle_update_result`, for callers that do not carry the row id.
pub fn handle_update_result_unit<T, E>(result: Result<Option<T>, E>) -> (r: SyncResult<()>)
    ensures
        match result {
            Ok(Some(_)) => r == SyncResult::<()>::Updated(()),
            Ok(None) => r is Error,
            Err(_) => r is Error,
        },
{
    match result {
        Ok(Some(_)) => SyncResult::Updated(()),
        Ok(None) => SyncResult::Error,
        Err(_) => SyncResult::Error,
    }
}

/// Turns the store's answer to a create into a classification.
pub fn handle_create_result<T, E>(result: Result<T, E>, created_id: i32) -> (r: SyncResult<i32>)
    ensures
        match result {
            Ok(_) => r == SyncResult::<i32>::Created(created_id),
            Err(_) => r is Error,
        },
{
    match result {
        Ok(_) => SyncResult::Created(created_id),
        Err(_) => SyncResult::Error,
    }
}

/// As `handle_create_result`, for callers that do not carry the row id.
pub fn handle_create_result_unit<T, E>(result: Result<T, E>) -> (r: SyncResult<()>)
    ensures
        match result {
            Ok(_) => r == SyncResult::<()>::Created(()),
            Err(_) => r is Error,
        },
{
    match result {
        Ok(_) => SyncResult::Created(()),
        Err(_) => SyncResult::Error,
    }
}

} // verus!
