//! JMAP change tracking: turning change-log rows into a `/changes` answer.
use vstd::prelude::*;

use crate::text::{chars_of, dec_int, dec_int_chars, eq_chars, eq_str, parse_i64, spec_parse_i64, string_of};

verus! {

/// One change-log row: the object, what happened to it, and its modseq.
pub struct ChangeRow {
    pub object_id: String,
    pub change_type: String,
    pub id: i64,
}

/// Changes since a given state.
pub struct ChangesResult {
    pub new_state: String,
    pub has_more_changes: bool,
    pub created: Vec<String>,
    pub updated: Vec<String>,
    pub destroyed: Vec<String>,
}

/// Standard JMAP /changes response.
pub struct ChangesResponse {
    pub account_id: String,
    pub old_state: String,
    pub new_state: String,
    pub has_more_changes: bool,
    pub created: Vec<String>,
    pub updated: Vec<String>,
    pub destroyed: Vec<String>,
}

/// Abstract form of change-log rows: (object id, change type, modseq).
pub open spec fn rows_view(rows: Seq<ChangeRow>) -> Seq<(Seq<char>, Seq<char>, i64)> {
    Seq::new(rows.len(), |i: int| (rows[i].object_id@, rows[i].change_type@, rows[i].id))
}

/// The rows kept for the answer: at most `max` of them (all of them when
/// `max` is negative).
pub open spec fn kept(rows: Seq<(Seq<char>, Seq<char>, i64)>, max: int) -> Seq<(Seq<char>, Seq<char>, i64)> {
    if max < 0 || rows.len() <= max {
        rows
    } else {
        rows.take(max)
    }
}

/// The change type of the last row about `obj`, if any.
pub open spec fn last_change(rows: Seq<(Seq<char>, Seq<char>, i64)>, obj: Seq<char>) -> Option<Seq<char>>
    decreases rows.len(),
{
    if rows.len() == 0 {
        None
    } else if rows.last().0 == obj {
        Some(rows.last().1)
    } else {
        last_change(rows.drop_last(), obj)
    }
}

/// `ids` lists, once each, exactly the objects whose last change is `kind`.
pub open spec fn lists_exactly(ids: Seq<Seq<char>>, rows: Seq<(Seq<char>, Seq<char>, i64)>, kind: Seq<char>) -> bool {
    &&& forall|x: Seq<char>| ids.contains(x) <==> last_change(rows, x) == Some(kind)
    &&& forall|i: int, j: int| 0 <= i < j < ids.len() ==> ids[i] != ids[j]
}

/// The state after the kept rows: the modseq of the last one, or the old state.
pub open spec fn spec_new_state(rows: Seq<(Seq<char>, Seq<char>, i64)>, max: int, since: i64) -> Seq<char> {
    let k = kept(rows, max);
    if k.len() == 0 {
        dec_int(since as int)
    } else {
        dec_int(k.last().2 as int)
    }
}

/// Distinct object ids with the change type of their last row so far.
spec fn latest_ok(entries: Seq<(Seq<char>, Seq<char>)>, rows: Seq<(Seq<char>, Seq<char>, i64)>) -> bool {
    &&& forall|i: int, j: int| 0 <= i < j < entries.len() ==> entries[i].0 != entries[j].0
    &&& forall|i: int| 0 <= i < entries.len() ==> last_change(rows, #[trigger] entries[i].0) == Some(entries[i].1)
    &&& forall|x: Seq<char>| last_change(rows, x) is Some ==> exists|i: int| 0 <= i < entries.len() && #[trigger] entries[i].0 == x
}

proof fn lemma_last_change_push(rows: Seq<(Seq<char>, Seq<char>, i64)>, r: (Seq<char>, Seq<char>, i64), x: Seq<char>)
    ensures
        last_change(rows.push(r), x) == if r.0 == x {
            Some(r.1)
        } else {
            last_change(rows, x)
        },
{
    assert(rows.push(r).drop_last() =~= rows);
}

/// Summarize change-log rows read after `since_state` (at most `max_changes + 1`
/// of them, in modseq order): whether more remain, the new state, and the
/// objects created, updated and destroyed, each object under the kind of its
/// last change.
pub fn summarize_changes(rows: &[ChangeRow], since_state: i64, max_changes: i64) -> (r: ChangesResult)
    ensures
        r.has_more_changes == (rows@.len() > max_changes),
        r.new_state@ == spec_new_state(rows_view(rows@), max_changes as int, since_state),
        lists_exactly(r.created.deep_view(), kept(rows_view(rows@), max_changes as int), "created"@),
        lists_exactly(r.updated.deep_view(), kept(rows_view(rows@), max_changes as int), "updated"@),
        lists_exactly(r.destroyed.deep_view(), kept(rows_view(rows@), max_changes as int), "destroyed"@),
{
    let ghost all = rows_view(rows@);
    let has_more = (rows.len() as i128) > (max_changes as i128);
    let n: usize = if max_changes < 0 || (rows.len() as i128) <= (max_changes as i128) {
        rows.len()
    } else {
        max_changes as usize
    };
    let ghost k = kept(all, max_changes as int);
    assert(k =~= all.take(n as int));
    let new_state = if n == 0 {
        string_of(&dec_int_chars(since_state))
    } else {
        assert(k.last().2 == rows@[n - 1].id);
        string_of(&dec_int_chars(rows[n - 1].id))
    };
    // Latest change type per object, in order of first appearance.
    let mut entries: Vec<(Vec<char>, Vec<char>)> = Vec::new();
    let mut i: usize = 0;
    while i < n
        invariant
            i <= n <= rows@.len(),
            all == rows_view(rows@),
            latest_ok(
                Seq::new(entries@.len(), |m: int| (entries@[m].0@, entries@[m].1@)),
                all.take(i as int),
            ),
        decreases n - i,
    {
        let ghost ev = Seq::new(entries@.len(), |m: int| (entries@[m].0@, entries@[m].1@));
        let ghost row = all[i as int];
        let obj = chars_of(rows[i].object_id.as_str());
        let ch = chars_of(rows[i].change_type.as_str());
        assert(row == (obj@, ch@, rows@[i as int].id));
        assert(all.take(i + 1) =~= all.take(i as int).push(row));
        let mut g: usize = 0;
        let mut found = false;
        while g < entries.len()
            invariant_except_break
                !found,
            invariant
                g <= entries@.len(),
                forall|h: int| 0 <= h < g ==> entries@[h].0@ != obj@,
            ensures
                found ==> g < entries@.len() && entries@[g as int].0@ == obj@,
                !found ==> g == entries@.len(),
            decreases entries@.len() - g,
        {
            if eq_chars(&entries[g].0, &obj) {
                found = true;
                break;
            }
            g = g + 1;
        }
        if found {
            let (o, _) = entries.remove(g);
            entries.insert(g, (o, ch));
        } else {
            entries.push((obj, ch));
        }
        proof {
            let nv = Seq::new(entries@.len(), |m: int| (entries@[m].0@, entries@[m].1@));
            let pre = all.take(i as int);
            assert forall|x: Seq<char>| last_change(pre.push(row), x) == if row.0 == x {
                Some(row.1)
            } else {
                last_change(pre, x)
            } by {
                lemma_last_change_push(pre, row, x);
            }
            if found {
                assert(nv.len() == ev.len());
                assert forall|m: int| 0 <= m < nv.len() implies nv[m].0 == ev[m].0 by {}
                assert forall|m: int| 0 <= m < nv.len() && m != g implies nv[m].1 == ev[m].1 by {}
                assert(nv[g as int].1 == ch@);
                assert forall|x: Seq<char>| last_change(pre.push(row), x) is Some implies exists|m: int| 0 <= m < nv.len() && #[trigger] nv[m].0 == x by {
                    if x != row.0 {
                        let m = choose|m: int| 0 <= m < ev.len() && #[trigger] ev[m].0 == x;
                        assert(nv[m].0 == x);
                    } else {
                        assert(nv[g as int].0 == x);
                    }
                }
            } else {
                assert(nv.len() == ev.len() + 1);
                assert forall|m: int| 0 <= m < ev.len() implies nv[m] == ev[m] by {}
                assert(nv[ev.len() as int] == (obj@, ch@));
                assert forall|x: Seq<char>| last_change(pre.push(row), x) is Some implies exists|m: int| 0 <= m < nv.len() && #[trigger] nv[m].0 == x by {
                    if x != row.0 {
                        let m = choose|m: int| 0 <= m < ev.len() && #[trigger] ev[m].0 == x;
                        assert(nv[m].0 == x);
                    } else {
                        assert(nv[ev.len() as int].0 == x);
                    }
                }
                assert forall|m: int| 0 <= m < ev.len() implies ev[m].0 != obj@ by {
                    assert(entries@[m].0@ == ev[m].0);
                }
            }
            assert(latest_ok(nv, pre.push(row)));
        }
        i = i + 1;
    }
    let ghost ev = Seq::new(entries@.len(), |m: int| (entries@[m].0@, entries@[m].1@));
    assert(all.take(n as int) =~= k);
    let created = collect_kind(&entries, "created", Ghost(k));
    let updated = collect_kind(&entries, "updated", Ghost(k));
    let destroyed = collect_kind(&entries, "destroyed", Ghost(k));
    ChangesResult { new_state, has_more_changes: has_more, created, updated, destroyed }
}

/// The object ids whose latest change type is `kind`.
fn collect_kind(entries: &Vec<(Vec<char>, Vec<char>)>, kind: &str, Ghost(rows): Ghost<Seq<(Seq<char>, Seq<char>, i64)>>) -> (r: Vec<String>)
    requires
        latest_ok(Seq::new(entries@.len(), |m: int| (entries@[m].0@, entries@[m].1@)), rows),
    ensures
        lists_exactly(r.deep_view(), rows, kind@),
{
    let ghost ev = Seq::new(entries@.len(), |m: int| (entries@[m].0@, entries@[m].1@));
    let mut out: Vec<String> = Vec::new();
    let ghost mut src: Seq<int> = Seq::empty();
    let mut g: usize = 0;
    while g < entries.len()
        invariant
            g <= entries@.len(),
            ev == Seq::new(entries@.len(), |m: int| (entries@[m].0@, entries@[m].1@)),
            latest_ok(ev, rows),
            src.len() == out@.len(),
            forall|j: int| 0 <= j < src.len() ==> 0 <= #[trigger] src[j] < g && out.deep_view()[j] == ev[src[j]].0 && ev[src[j]].1 == kind@,
            forall|j: int, l: int| 0 <= j < l < src.len() ==> src[j] < src[l],
            forall|m: int| 0 <= m < g && ev[m].1 == kind@ ==> exists|j: int| 0 <= j < src.len() && src[j] == m,
        decreases entries@.len() - g,
    {
        let ghost src0 = src;
        assert(ev[g as int].1 == entries@[g as int].1@);
        if eq_str(&entries[g].1, kind) {
            let ghost before = out.deep_view();
            out.push(string_of(&entries[g].0));
            proof {
                assert(out.deep_view() =~= before.push(ev[g as int].0));
                src = src.push(g as int);
            }
        }
        proof {
            assert forall|m: int| 0 <= m < g + 1 && ev[m].1 == kind@ implies exists|j: int| 0 <= j < src.len() && src[j] == m by {
                if m == g {
                    assert(src[src.len() - 1] == m);
                } else {
                    let j = choose|j: int| 0 <= j < src0.len() && src0[j] == m;
                    assert(src[j] == m);
                }
            }
        }
        g = g + 1;
    }
    proof {
        let ov = out.deep_view();
        assert forall|x: Seq<char>| ov.contains(x) <==> last_change(rows, x) == Some(kind@) by {
            if ov.contains(x) {
                let j = choose|j: int| 0 <= j < ov.len() && ov[j] == x;
                assert(0 <= src[j] < ev.len());
                assert(last_change(rows, ev[src[j]].0) == Some(ev[src[j]].1));
            }
            if last_change(rows, x) == Some(kind@) {
                let m = choose|m: int| 0 <= m < ev.len() && #[trigger] ev[m].0 == x;
                assert(last_change(rows, ev[m].0) == Some(ev[m].1));
                let j = choose|j: int| 0 <= j < src.len() && src[j] == m;
                assert(ov[j] == x);
            }
        }
        assert forall|i: int, j: int| 0 <= i < j < ov.len() implies ov[i] != ov[j] by {
            assert(src[i] < src[j]);
            assert(ev[src[i]].0 != ev[src[j]].0);
        }
    }
    out
}

/// The `/changes` response for an account from a summary of the change log.
pub fn changes_response(account_id: i32, since_state: i64, result: ChangesResult) -> (r: ChangesResponse)
    ensures
        r.account_id@ == dec_int(account_id as int),
        r.old_state@ == dec_int(since_state as int),
        r.new_state == result.new_state,
        r.has_more_changes == result.has_more_changes,
        r.created == result.created,
        r.updated == result.updated,
        r.destroyed == result.destroyed,
{
    ChangesResponse {
        account_id: string_of(&dec_int_chars(account_id as i64)),
        old_state: string_of(&dec_int_chars(since_state)),
        new_state: result.new_state,
        has_more_changes: result.has_more_changes,
        created: result.created,
        updated: result.updated,
        destroyed: result.destroyed,
    }
}

/// `sinceState` of a `/changes` request: the number it holds, or 0 when it
/// is absent or not a number.
pub fn since_state(arg: Option<&str>) -> (n: i64)
    ensures
        n == match arg {
            Some(s) => match spec_parse_i64(s@) {
                Some(v) => v,
                None => 0,
            },
            None => 0,
        },
{
    match arg {
        Some(s) => match parse_i64(s) {
            Some(v) => v,
            None => 0,
        },
        None => 0,
    }
}

/// `maxChanges` of a `/changes` request: 500 when absent.
pub fn max_changes(arg: Option<i64>) -> (n: i64)
    ensures
        n == match arg {
            Some(v) => v,
            None => 500,
        },
{
    match arg {
        Some(v) => v,
        None => 500,
    }
}

/// An object shows up in at most one of the created, updated and destroyed
/// lists: the one named by its last change.
pub proof fn law_changes_partition(
    created: Seq<Seq<char>>,
    updated: Seq<Seq<char>>,
    destroyed: Seq<Seq<char>>,
    rows: Seq<(Seq<char>, Seq<char>, i64)>,
    x: Seq<char>,
)
    requires
        lists_exactly(created, rows, "created"@),
        lists_exactly(updated, rows, "updated"@),
        lists_exactly(destroyed, rows, "destroyed"@),
    ensures
        !(created.contains(x) && updated.contains(x)),
        !(created.contains(x) && destroyed.contains(x)),
        !(updated.contains(x) && destroyed.contains(x)),
{
    reveal_strlit("created");
    reveal_strlit("updated");
    reveal_strlit("destroyed");
    assert("created"@[0] != "updated"@[0]);
    assert("created"@[0] != "destroyed"@[0]);
    assert("updated"@[0] != "destroyed"@[0]);
}

} // verus!
