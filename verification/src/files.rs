//! The file service's directory listing order and its text-file check.
use vstd::prelude::*;
use vstd::utf8::{decode_utf8, valid_utf8};

use crate::desktop::{lemma_str_lt_order, str_less, str_lt};
use crate::smtp_auth::string_from_utf8;
use crate::text::{str_lower, to_lowercase};

verus! {

/// One directory entry as listed.
pub struct FileEntry {
    pub name: String,
    pub path: String,
    pub is_dir: bool,
    pub size: u64,
    pub modified: String,
}

/// Listing order: directories first, then by lower-cased name.
pub open spec fn entry_before(a: (bool, Seq<char>), b: (bool, Seq<char>)) -> bool {
    (a.0 && !b.0) || (a.0 == b.0 && str_lt(str_lower(a.1), str_lower(b.1)))
}

/// Insert `x` after every element it does not come before.
pub open spec fn insert_entry(s: Seq<(bool, Seq<char>)>, x: (bool, Seq<char>)) -> Seq<(bool, Seq<char>)>
    decreases s.len(),
{
    if s.len() == 0 || !entry_before(x, s.last()) {
        s.push(x)
    } else {
        insert_entry(s.drop_last(), x).push(s.last())
    }
}

/// Stable sort in listing order.
pub open spec fn sort_entries_spec(s: Seq<(bool, Seq<char>)>) -> Seq<(bool, Seq<char>)>
    decreases s.len(),
{
    if s.len() == 0 {
        s
    } else {
        insert_entry(sort_entries_spec(s.drop_last()), s.last())
    }
}

/// No entry in `s` comes before one listed ahead of it.
pub open spec fn entries_in_order(s: Seq<(bool, Seq<char>)>) -> bool {
    forall|i: int, j: int| #![trigger s[i], s[j]] 0 <= i < j < s.len() ==> !entry_before(s[j], s[i])
}

proof fn lemma_entry_before_order(a: (bool, Seq<char>), b: (bool, Seq<char>), c: (bool, Seq<char>))
    ensures
        !entry_before(a, a),
        entry_before(a, b) ==> !entry_before(b, a),
        !entry_before(a, b) && !entry_before(b, c) ==> !entry_before(a, c),
{
    lemma_str_lt_order(str_lower(a.1), str_lower(b.1), str_lower(c.1));
    lemma_str_lt_order(str_lower(b.1), str_lower(a.1), str_lower(c.1));
}

proof fn lemma_insert_entry_not_before(s: Seq<(bool, Seq<char>)>, x: (bool, Seq<char>), y: (bool, Seq<char>))
    requires
        forall|k: int| 0 <= k < s.len() ==> !entry_before(y, #[trigger] s[k]),
        !entry_before(y, x),
    ensures
        forall|k: int| 0 <= k < insert_entry(s, x).len() ==> !entry_before(y, #[trigger] insert_entry(s, x)[k]),
        insert_entry(s, x).len() == s.len() + 1,
    decreases s.len(),
{
    if s.len() > 0 && entry_before(x, s.last()) {
        lemma_insert_entry_not_before(s.drop_last(), x, y);
    }
}

proof fn lemma_insert_entry_in_order(s: Seq<(bool, Seq<char>)>, x: (bool, Seq<char>))
    requires
        entries_in_order(s),
    ensures
        entries_in_order(insert_entry(s, x)),
    decreases s.len(),
{
    if s.len() == 0 || !entry_before(x, s.last()) {
        assert forall|m: int| 0 <= m < s.len() implies !entry_before(x, #[trigger] s[m]) by {
            lemma_entry_before_order(x, s.last(), s[m]);
        }
    } else {
        let d = s.drop_last();
        lemma_insert_entry_in_order(d, x);
        lemma_entry_before_order(x, s.last(), x);
        assert forall|k: int| 0 <= k < d.len() implies !entry_before(s.last(), #[trigger] d[k]) by {
            assert(s[k] == d[k]);
        }
        lemma_insert_entry_not_before(d, x, s.last());
    }
}

/// A sorted listing has no entry ahead of one that comes before it:
/// directories first, then lower-cased names in ascending order.
pub proof fn law_entries_sorted(s: Seq<(bool, Seq<char>)>)
    ensures
        entries_in_order(sort_entries_spec(s)),
    decreases s.len(),
{
    if s.len() > 0 {
        law_entries_sorted(s.drop_last());
        lemma_insert_entry_in_order(sort_entries_spec(s.drop_last()), s.last());
    }
}

/// What the order looks at.
pub open spec fn keys_view(s: Seq<FileEntry>) -> Seq<(bool, Seq<char>)> {
    Seq::new(s.len(), |i: int| (s[i].is_dir, s[i].name@))
}

proof fn lemma_insert_entry_at(s: Seq<(bool, Seq<char>)>, x: (bool, Seq<char>), j: int)
    requires
        0 <= j <= s.len(),
        forall|m: int| j <= m < s.len() ==> entry_before(x, #[trigger] s[m]),
        j == 0 || !entry_before(x, s[j - 1]),
    ensures
        insert_entry(s, x) == s.insert(j, x),
    decreases s.len() - j,
{
    if j < s.len() {
        lemma_insert_entry_at(s.drop_last(), x, j);
        assert(s.drop_last().insert(j, x).push(s.last()) =~= s.insert(j, x));
    } else {
        assert(s.push(x) =~= s.insert(j, x));
    }
}

fn entry_less(a: &FileEntry, b: &FileEntry) -> (r: bool)
    ensures
        r == entry_before((a.is_dir, a.name@), (b.is_dir, b.name@)),
{
    if a.is_dir && !b.is_dir {
        return true;
    }
    if a.is_dir != b.is_dir {
        return false;
    }
    let la = to_lowercase(a.name.as_str());
    let lb = to_lowercase(b.name.as_str());
    str_less(la.as_str(), lb.as_str())
}

/// Sort a listing: directories first, then by lower-cased name; entries
/// that compare equal keep their order.
pub fn sort_entries(entries: Vec<FileEntry>) -> (sorted: Vec<FileEntry>)
    ensures
        keys_view(sorted@) == sort_entries_spec(keys_view(entries@)),
        sorted@.to_multiset() == entries@.to_multiset(),
{
    broadcast use vstd::seq_lib::group_seq_properties;
    let ghost kv = keys_view(entries@);
    let ghost orig = entries@;
    let n = entries.len();
    let mut sorted: Vec<FileEntry> = Vec::new();
    let mut rest = entries;
    let mut i: usize = 0;
    while rest.len() > 0
        invariant
            i + rest@.len() == kv.len(),
            n == kv.len(),
            kv.len() == orig.len(),
            rest@ == orig.skip(i as int),
            kv == keys_view(orig),
            keys_view(sorted@) == sort_entries_spec(kv.take(i as int)),
            sorted@.to_multiset() == orig.take(i as int).to_multiset(),
        decreases rest@.len(),
    {
        let x = rest.remove(0);
        proof {
            assert(x == orig[i as int]);
            assert((x.is_dir, x.name@) == kv[i as int]);
            assert(rest@ =~= orig.skip(i + 1));
        }
        let ghost sv = keys_view(sorted@);
        let ghost s0 = sorted@;
        let mut j = sorted.len();
        while j > 0 && entry_less(&x, &sorted[j - 1])
            invariant
                j <= sorted@.len(),
                sv == keys_view(sorted@),
                forall|m: int| j <= m < sv.len() ==> entry_before((x.is_dir, x.name@), #[trigger] sv[m]),
            decreases j,
        {
            j = j - 1;
        }
        proof {
            lemma_insert_entry_at(sv, (x.is_dir, x.name@), j as int);
            assert(kv.take(i + 1).drop_last() =~= kv.take(i as int));
            assert(orig.take(i + 1) =~= orig.take(i as int).push(x));
        }
        sorted.insert(j, x);
        proof {
            assert(keys_view(sorted@) =~= sv.insert(j as int, kv[i as int]));
            vstd::seq_lib::to_multiset_insert(s0, j as int, x);
            vstd::seq_lib::to_multiset_build(orig.take(i as int), x);
        }
        i = i + 1;
    }
    assert(kv.take(i as int) =~= kv);
    assert(orig.take(i as int) =~= orig);
    sorted
}

/// The text-file check of the read command.
pub enum ReadError {
    /// A NUL byte in the first 8 KiB, or not UTF-8.
    Binary,
}

/// The check looks at this many leading bytes for a NUL.
pub open spec fn probe_len(n: nat) -> nat {
    if n < 8192 { n } else { 8192 }
}

/// The contents of a file the read command may return: text without a NUL
/// byte in its first 8 KiB.
pub fn file_text(data: Vec<u8>) -> (r: Result<String, ReadError>)
    ensures
        match r {
            Ok(s) => !data@.take(probe_len(data@.len()) as int).contains(0u8) && valid_utf8(data@)
                && s@ == decode_utf8(data@),
            Err(_) => data@.take(probe_len(data@.len()) as int).contains(0u8) || !valid_utf8(data@),
        },
{
    let n = if data.len() < 8192 { data.len() } else { 8192 };
    let mut i: usize = 0;
    while i < n
        invariant
            n == probe_len(data@.len()),
            n <= data@.len(),
            i <= n,
            forall|j: int| 0 <= j < i ==> data@[j] != 0u8,
        decreases n - i,
    {
        if data[i] == 0u8 {
            assert(data@.take(n as int)[i as int] == 0u8);
            return Err(ReadError::Binary);
        }
        i = i + 1;
    }
    assert(!data@.take(n as int).contains(0u8)) by {
        if data@.take(n as int).contains(0u8) {
            let j = choose|j: int| 0 <= j < n && data@.take(n as int)[j] == 0u8;
            assert(data@[j] == 0u8);
        }
    }
    let ghost d = data@;
    match string_from_utf8(data) {
        Some(s) => Ok(s),
        None => Err(ReadError::Binary),
    }
}

} // verus!
