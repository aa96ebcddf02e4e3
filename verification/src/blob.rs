//! Content-addressed blob storage: where the bytes of a blob live.
use vstd::prelude::*;

use crate::jmap_types::path_join;
use crate::text::{chars_of, string_of, sub_vec};

verus! {

/// `blake3::hash(data).to_hex()`: the hash of the bytes in hexadecimal.
pub uninterp spec fn blake3_hex(data: Seq<u8>) -> Seq<char>;

/// A lower-case hexadecimal digit.
pub open spec fn is_lower_hex(c: char) -> bool {
    ('0' <= c && c <= '9') || ('a' <= c && c <= 'f')
}

/// Calls `blake3::hash` and `Hash::to_hex`: 32 hash bytes, each written as
/// two lower-case hexadecimal digits.
#[verifier::external_body]
fn blake3_hash_hex(data: &[u8]) -> (h: String)
    ensures
        h@ == blake3_hex(data@),
        h@.len() == 64,
        forall|i: int| 0 <= i < 64 ==> is_lower_hex(#[trigger] h@[i]),
{
    blake3::hash(data).to_hex().to_string()
}

/// Path of the blob with hash `hash` under `dir`: two levels of
/// directories named by the first two pairs of hash digits.
pub open spec fn spec_blob_path(dir: Seq<char>, hash: Seq<char>) -> Seq<char> {
    path_join(path_join(path_join(dir, hash.take(2)), hash.subrange(2, 4)), hash)
}

/// Path of a blob from its hash, whose first four characters are ASCII
/// (so that they are its first four bytes).
pub fn blob_path(dir: &str, hash: &str) -> (p: String)
    requires
        hash@.len() >= 4,
        forall|i: int| 0 <= i < 4 ==> (#[trigger] hash@[i] as u32) < 0x80,
    ensures
        p@ == spec_blob_path(dir@, hash@),
{
    let h = chars_of(hash);
    let d = chars_of(dir);
    let a = sub_vec(&h, 0, 2);
    let b = sub_vec(&h, 2, 4);
    assert(a@ =~= hash@.take(2));
    let p1 = crate::jmap_types::join_path(&d, &a);
    let p2 = crate::jmap_types::join_path(&p1, &b);
    let p3 = crate::jmap_types::join_path(&p2, &h);
    string_of(&p3)
}

/// Where the bytes of a blob are stored: its hash and its path under `dir`.
pub fn blob_location(dir: &str, data: &[u8]) -> (r: (String, String))
    ensures
        r.0@ == blake3_hex(data@),
        r.1@ == spec_blob_path(dir@, blake3_hex(data@)),
{
    let hash = blake3_hash_hex(data);
    assert forall|i: int| 0 <= i < 4 implies (#[trigger] hash@[i] as u32) < 0x80 by {
        assert(is_lower_hex(hash@[i]));
    }
    let path = blob_path(dir, hash.as_str());
    (hash, path)
}

} // verus!
