//! SQL text of the store's statements with numbered parameters: partial
//! updates, which set only the columns a request changes, and listing
//! queries, which apply only the filters a request gives.
use vstd::prelude::*;

use crate::text::{append_chars, append_str, chars_of, dec, dec_chars, join, string_of};

verus! {

/// `column = ?n` for the column at `i`: parameters 1 and 2 are the
/// account and the object, so the columns take 3, 4, ...
pub open spec fn assignment(column: Seq<char>, i: nat) -> Seq<char> {
    column + " = ?"@ + dec(i + 3)
}

/// The assignments of `columns`, in order.
pub open spec fn assignments(columns: Seq<Seq<char>>) -> Seq<Seq<char>> {
    Seq::new(columns.len(), |i: int| assignment(columns[i], i as nat))
}

/// The update statement for `columns` of `table`, or none when no column
/// changes (the store then reports the object unchanged without a query).
pub open spec fn spec_update_sql(table: Seq<char>, columns: Seq<Seq<char>>) -> Option<Seq<char>> {
    if columns.len() == 0 {
        None
    } else {
        Some("UPDATE "@ + table + " SET "@ + join(assignments(columns), ", "@) + " WHERE account_id = ?1 AND id = ?2"@)
    }
}

/// Build the partial update of `columns` of `table`.
pub fn update_sql(table: &str, columns: &Vec<String>) -> (r: Option<String>)
    requires
        columns@.len() + 3 <= u64::MAX,
    ensures
        match r {
            Some(s) => spec_update_sql(table@, columns.deep_view()) == Some(s@),
            None => spec_update_sql(table@, columns.deep_view()) is None,
        },
{
    if columns.len() == 0 {
        return None;
    }
    let ghost cv = columns.deep_view();
    let ghost av = assignments(cv);
    let mut sets: Vec<char> = Vec::new();
    let mut i: usize = 0;
    while i < columns.len()
        invariant
            i <= columns@.len(),
            columns@.len() + 3 <= u64::MAX,
            cv == columns.deep_view(),
            av == assignments(cv),
            sets@ == join(av.take(i as int), ", "@),
        decreases columns@.len() - i,
    {
        assert(av.take(i + 1).drop_last() =~= av.take(i as int));
        let mut a = chars_of(columns[i].as_str());
        append_str(&mut a, " = ?");
        append_chars(&mut a, &dec_chars(i as u64 + 3));
        assert(a@ == av[i as int]);
        assert(av.take(i + 1).last() == a@);
        if i > 0 {
            append_str(&mut sets, ", ");
        } else {
            assert(av.take(1) =~= seq![a@]);
        }
        append_chars(&mut sets, &a);
        i = i + 1;
    }
    assert(av.take(columns@.len() as int) =~= av);
    let mut s = chars_of("UPDATE ");
    append_str(&mut s, table);
    append_str(&mut s, " SET ");
    append_chars(&mut s, &sets);
    append_str(&mut s, " WHERE account_id = ?1 AND id = ?2");
    Some(string_of(&s))
}

/// Columns a mailbox update sets: the name, the parent and the sort order,
/// each when the request gives it.
pub fn mailbox_update_columns(name: bool, parent: bool, sort_order: bool) -> (c: Vec<String>)
    ensures
        c.deep_view() == (if name { seq!["name"@] } else { Seq::empty() }) + (if parent {
            seq!["parent_id"@]
        } else {
            Seq::empty()
        }) + (if sort_order { seq!["sort_order"@] } else { Seq::empty() }),
{
    let mut c: Vec<String> = Vec::new();
    if name {
        c.push("name".to_owned());
    }
    let ghost a = c.deep_view();
    if parent {
        c.push("parent_id".to_owned());
    }
    let ghost b = c.deep_view();
    if sort_order {
        c.push("sort_order".to_owned());
    }
    proof {
        assert(a =~= (if name { seq!["name"@] } else { Seq::empty() }));
        assert(b =~= a + (if parent { seq!["parent_id"@] } else { Seq::empty() }));
        assert(c.deep_view() =~= b + (if sort_order { seq!["sort_order"@] } else { Seq::empty() }));
    }
    c
}

/// A filter of a listing query: the pieces of its condition, between which
/// the filter's parameter is referenced (`["calendar_id = ", ""]` gives
/// `calendar_id = ?n`).
pub open spec fn filter_text(pieces: Seq<Seq<char>>, n: nat) -> Seq<char> {
    join(pieces, "?"@ + dec(n))
}

/// The conditions of a listing query: the account (parameter 1), then each
/// filter with the next parameter.
pub open spec fn conditions(filters: Seq<Seq<Seq<char>>>) -> Seq<Seq<char>> {
    seq!["account_id = ?1"@] + Seq::new(filters.len(), |i: int| filter_text(filters[i], (i + 2) as nat))
}

/// The counting and the selecting statement of a listing query over
/// `table`, ordered by `order`; offset and limit take the two parameters
/// after the filters'.
pub open spec fn spec_listing_sql(table: Seq<char>, order: Seq<char>, filters: Seq<Seq<Seq<char>>>) -> (Seq<char>, Seq<char>) {
    let w = join(conditions(filters), " AND "@);
    (
        "SELECT COUNT(*) FROM "@ + table + " WHERE "@ + w,
        "SELECT id FROM "@ + table + " WHERE "@ + w + " ORDER BY "@ + order + " OFFSET ?"@ + dec(filters.len() + 2)
            + " LIMIT ?"@ + dec(filters.len() + 3),
    )
}

/// Abstract form of filters.
pub open spec fn filters_view(f: Seq<Vec<String>>) -> Seq<Seq<Seq<char>>> {
    Seq::new(f.len(), |i: int| f[i].deep_view())
}

fn join_with(parts: &Vec<String>, sep: &Vec<char>) -> (r: Vec<char>)
    ensures
        r@ == join(parts.deep_view(), sep@),
{
    let ghost pv = parts.deep_view();
    let mut r: Vec<char> = Vec::new();
    let mut i: usize = 0;
    while i < parts.len()
        invariant
            i <= parts@.len(),
            pv == parts.deep_view(),
            r@ == join(pv.take(i as int), sep@),
        decreases parts@.len() - i,
    {
        assert(pv.take(i + 1).drop_last() =~= pv.take(i as int));
        assert(pv.take(i + 1).last() == parts@[i as int]@);
        let p = chars_of(parts[i].as_str());
        if i > 0 {
            append_chars(&mut r, sep);
        } else {
            assert(pv.take(1) =~= seq![p@]);
        }
        append_chars(&mut r, &p);
        i = i + 1;
    }
    assert(pv.take(parts@.len() as int) =~= pv);
    r
}

/// Build the counting and the selecting statement of a listing query.
pub fn listing_sql(table: &str, order: &str, filters: &Vec<Vec<String>>) -> (r: (String, String))
    requires
        filters@.len() + 3 <= u64::MAX,
    ensures
        (r.0@, r.1@) == spec_listing_sql(table@, order@, filters_view(filters@)),
{
    let ghost fv = filters_view(filters@);
    let ghost cv = conditions(fv);
    let mut conds: Vec<String> = Vec::new();
    conds.push("account_id = ?1".to_owned());
    let mut i: usize = 0;
    assert(conds.deep_view() =~= cv.take(1));
    while i < filters.len()
        invariant
            i <= filters@.len(),
            filters@.len() + 3 <= u64::MAX,
            fv == filters_view(filters@),
            cv == conditions(fv),
            conds.deep_view() == cv.take(i + 1),
        decreases filters@.len() - i,
    {
        let mut ph = chars_of("?");
        append_chars(&mut ph, &dec_chars(i as u64 + 2));
        let c = join_with(&filters[i], &ph);
        assert(filters@[i as int].deep_view() == fv[i as int]);
        assert(c@ == cv[i + 1]);
        let ghost before = conds.deep_view();
        conds.push(string_of(&c));
        assert(conds.deep_view() =~= before.push(c@));
        assert(cv.take(i + 2) =~= cv.take(i + 1).push(cv[i + 1]));
        i = i + 1;
    }
    assert(cv.take(filters@.len() as int + 1) =~= cv);
    let w = join_with(&conds, &chars_of(" AND "));
    let mut count = chars_of("SELECT COUNT(*) FROM ");
    append_str(&mut count, table);
    append_str(&mut count, " WHERE ");
    append_chars(&mut count, &w);
    let mut select = chars_of("SELECT id FROM ");
    append_str(&mut select, table);
    append_str(&mut select, " WHERE ");
    append_chars(&mut select, &w);
    append_str(&mut select, " ORDER BY ");
    append_str(&mut select, order);
    append_str(&mut select, " OFFSET ?");
    append_chars(&mut select, &dec_chars(filters.len() as u64 + 2));
    append_str(&mut select, " LIMIT ?");
    append_chars(&mut select, &dec_chars(filters.len() as u64 + 3));
    (string_of(&count), string_of(&select))
}

} // verus!
