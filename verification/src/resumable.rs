//! Pure pieces of the resumable-upload subsystem: the key format tying an
//! upload to its file, and the response shapes.  The object-storage calls
//! themselves live at the boundary.
use vstd::prelude::*;

verus! {

/// What an upload initialization answers with.
pub struct InitResponse {
    pub upload_id: String,
    pub key: String,
    pub chunk_size: i64,
    pub total_chunks: i64,
    pub completed_chunks: i64,
    pub is_resume: bool,
}

/// One unfinished upload, as listed for resumption.
pub struct PendingUpload {
    pub upload_id: String,
    pub key: String,
    pub file_name: String,
    pub file_signature: String,
    pub completed_chunks: i64,
    pub bytes_uploaded: i64,
    pub created_at: String,
}

/// What an object key encodes: the file's signature and its name.
pub struct UploadMetadata {
    pub signature: String,
    pub file_name: String,
}

/// The length of the signature prefix inside an object key.
pub open spec fn signature_len() -> int {
    16
}

/// Builds the object key of a file: its signature, an underscore, its name.
pub fn build_key(signature: &str, file_name: &str) -> (r: String)
    ensures
        r@ == signature@ + seq!['_'] + file_name@,
{
    let mut r = String::new();
    r.append(signature);
    r.append("_");
    r.append(file_name);
    proof {
        reveal_strlit("_");
        assert("_"@.len() == 1);
        assert(r@ =~= signature@ + seq!['_'] + file_name@);
    }
    r
}

/// A key parses exactly when its first underscore sits right after the
/// sixteen-character signature.
pub open spec fn key_parses(key: Seq<char>) -> bool {
    &&& key.len() > signature_len()
    &&& key[signature_len()] == '_'
    &&& forall|j: int| 0 <= j < signature_len() ==> key[j] != '_'
}

/// Parses an object key back into its signature and file name; a key whose
/// first underscore is not at the signature boundary is refused.
pub fn parse_key(key: &str) -> (r: Option<UploadMetadata>)
    ensures
        match r {
            Some(m) => key_parses(key@) && m.signature@ == key@.subrange(0, signature_len())
                && m.file_name@ == key@.subrange(signature_len() + 1, key@.len() as int),
            None => !key_parses(key@),
        },
{
    let n = key.unicode_len();
    let mut i: usize = 0;
    while i < n && key.get_char(i) != '_'
        invariant
            n == key@.len(),
            i <= n,
            forall|j: int| 0 <= j < i ==> key@[j] != '_',
        decreases n - i,
    {
        i = i + 1;
    }
    if i == 16 && i < n {
        let signature = String::from_str(key.substring_char(0, 16));
        let file_name = String::from_str(key.substring_char(17, n));
        Some(UploadMetadata { signature, file_name })
    } else {
        None
    }
}

/// Reads the file name back out of an object key.
pub fn get_filename_from_key(key: &str) -> (r: Option<String>)
    ensures
        match r {
            Some(name) => key_parses(key@) && name@ == key@.subrange(
                signature_len() + 1,
                key@.len() as int,
            ),
            None => !key_parses(key@),
        },
{
    match parse_key(key) {
        Some(m) => Some(m.file_name),
        None => None,
    }
}

} // verus!
