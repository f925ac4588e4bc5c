//! A verified core for a reading-library service: content-addressed,
//! idempotent reconciliation of annotation batches from external sources
//! into a canonical hierarchical store (resources, annotations, comments,
//! notes), plus the small pure helpers the service is built from.
use vstd::prelude::*;

pub mod api;
pub mod commonplace;
pub mod config;
pub mod db;
pub mod handler;
pub mod hash;
pub mod light;
pub mod model;
pub mod numfmt;
pub mod pdf_date;
pub mod pdf_extract;
pub mod reconcile;
pub mod research;
pub mod resumable;
pub mod store;
pub mod sync;
pub mod textops;

verus! {

/// Builds the public URL of a stored object for a given storage service.
pub fn get_s3_url(service: &str, bucket: &str, key: &str) -> (r: String)
    ensures
        r@ == (if service@ == "t3"@ {
            "https://"@ + bucket@ + ".t3.storage.dev/"@ + key@
        } else if service@ == "s3"@ {
            "https://"@ + bucket@ + ".s3.amazonaws.com/"@ + key@
        } else {
            "https://"@ + service@ + ".storage.dev/"@ + key@
        }),
{
    let mut r = String::new();
    r.append("https://");
    if str_eq(service, "t3") {
        r.append(bucket);
        r.append(".t3.storage.dev/");
        r.append(key);
        proof {
            assert(r@ =~= "https://"@ + bucket@ + ".t3.storage.dev/"@ + key@);
        }
    } else if str_eq(service, "s3") {
        r.append(bucket);
        r.append(".s3.amazonaws.com/");
        r.append(key);
        proof {
            assert(r@ =~= "https://"@ + bucket@ + ".s3.amazonaws.com/"@ + key@);
        }
    } else {
        r.append(service);
        r.append(".storage.dev/");
        r.append(key);
        proof {
            assert(r@ =~= "https://"@ + service@ + ".storage.dev/"@ + key@);
        }
    }
    r
}

/// Joins an error and its chain of causes into one message, separated by
/// colons, outermost first.
pub fn unpack_error(parts: &Vec<String>) -> (r: String)
    ensures
        r@ == join_error_chain(parts@.map_values(|p: String| p@)),
{
    let mut r = String::new();
    let mut i: usize = 0;
    while i < parts.len()
        invariant
            i <= parts@.len(),
            r@ == join_error_chain(parts@.map_values(|p: String| p@).take(i as int)),
        decreases parts@.len() - i,
    {
        if i > 0 {
            r.append(": ");
        }
        r.append(parts[i].as_str());
        proof {
            reveal_strlit(": ");
            let pv = parts@.map_values(|p: String| p@);
            assert(pv.take(i + 1 as int).drop_last() =~= pv.take(i as int));
            assert(pv.take(i + 1 as int).last() == pv[i as int]);
            assert(r@ =~= join_error_chain(pv.take(i + 1 as int)));
        }
        i = i + 1;
    }
    proof {
        assert(parts@.map_values(|p: String| p@).take(parts@.len() as int) =~= parts@.map_values(
            |p: String| p@,
        ));
    }
    r
}

/// The messages of an error chain joined with `": "`.
pub open spec fn join_error_chain(parts: Seq<Seq<char>>) -> Seq<char>
    decreases parts.len(),
{
    if parts.len() == 0 {
        Seq::<char>::empty()
    } else if parts.len() == 1 {
        parts[0]
    } else {
        join_error_chain(parts.drop_last()) + ": "@ + parts.last()
    }
}

/// Character-wise equality of two string slices.
pub fn str_eq(a: &str, b: &str) -> (r: bool)
    ensures
        r == (a@ == b@),
{
    let sa = String::from_str(a);
    let sb = String::from_str(b);
    sa == sb
}

} // verus!
