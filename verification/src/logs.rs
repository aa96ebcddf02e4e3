//! Reading the desktop's log files for the assistant bridge: the file a
//! log name refers to, its last lines, and a case-insensitive search.
use vstd::prelude::*;

use crate::desktop::{str_less, str_lt};
use crate::text::{
    append_chars, append_str, chars_of, contains_chars, contains_sub, eq_str, has_prefix, join,
    lines_of, starts_with_str, str_lines, str_lower, string_of, to_lowercase, views,
};

verus! {

/// The last `n` elements of `s` (all of them when there are fewer).
pub open spec fn last_n<T>(s: Seq<T>, n: nat) -> Seq<T> {
    if s.len() <= n {
        s
    } else {
        s.skip(s.len() - n)
    }
}

/// Joins pieces with line feeds.
fn join_lines(ls: &Vec<Vec<char>>, from: usize) -> (r: Vec<char>)
    requires
        from <= ls@.len(),
    ensures
        r@ == join(views(ls@).skip(from as int), "\n"@),
{
    let ghost lv = views(ls@).skip(from as int);
    let mut r: Vec<char> = Vec::new();
    let mut i = from;
    while i < ls.len()
        invariant
            from <= i <= ls@.len(),
            lv == views(ls@).skip(from as int),
            r@ == join(lv.take(i - from), "\n"@),
        decreases ls@.len() - i,
    {
        assert(lv.take(i + 1 - from).drop_last() =~= lv.take(i - from));
        assert(lv.take(i + 1 - from).last() == ls@[i as int]@);
        if i > from {
            append_str(&mut r, "\n");
        } else {
            assert(lv.take(1) =~= seq![ls@[i as int]@]);
        }
        append_chars(&mut r, &ls[i]);
        i = i + 1;
    }
    assert(lv.take(ls@.len() - from) =~= lv);
    r
}

/// The last `n` lines of a log's content, joined with line feeds.
pub fn tail_lines(content: &str, n: usize) -> (r: String)
    ensures
        r@ == join(last_n(str_lines(content@), n as nat), "\n"@),
{
    let v = chars_of(content);
    let ls = lines_of(&v);
    let start = if ls.len() <= n { 0 } else { ls.len() - n };
    let j = join_lines(&ls, start);
    proof {
        assert(views(ls@).skip(start as int) =~= last_n(str_lines(content@), n as nat));
    }
    string_of(&j)
}

/// A line's lower-cased form contains the lower-cased pattern.
pub open spec fn line_filter(pattern: Seq<char>) -> spec_fn(Seq<char>) -> bool {
    |l: Seq<char>| contains_sub(str_lower(l), str_lower(pattern))
}

/// The lines that match the pattern.
pub open spec fn matching(ls: Seq<Seq<char>>, pattern: Seq<char>) -> Seq<Seq<char>> {
    ls.filter(line_filter(pattern))
}

/// The search answer: the last `max` matching lines joined with line
/// feeds, or a notice when nothing matched.
pub open spec fn spec_search(content: Seq<char>, pattern: Seq<char>, max: nat) -> Seq<char> {
    let m = matching(str_lines(content), pattern);
    if m.len() == 0 {
        "No matches found"@
    } else {
        join(last_n(m, max), "\n"@)
    }
}

/// Case-insensitive search of a log's content.
pub fn search_lines(content: &str, pattern: &str, max: usize) -> (r: String)
    ensures
        r@ == spec_search(content@, pattern@, max as nat),
{
    let pat_s = to_lowercase(pattern);
    let pat = chars_of(pat_s.as_str());
    let v = chars_of(content);
    let ls = lines_of(&v);
    let ghost lv = views(ls@);
    let ghost f = line_filter(pattern@);
    let mut found: Vec<Vec<char>> = Vec::new();
    let mut i: usize = 0;
    while i < ls.len()
        invariant
            i <= ls@.len(),
            lv == views(ls@),
            pat@ == str_lower(pattern@),
            f == line_filter(pattern@),
            views(found@) == lv.take(i as int).filter(f),
        decreases ls@.len() - i,
    {
        assert(lv.take(i + 1).drop_last() =~= lv.take(i as int));
        let line = string_of(&ls[i]);
        let low = to_lowercase(line.as_str());
        let lc = chars_of(low.as_str());
        let ghost before = views(found@);
        if contains_chars(&lc, &pat) {
            let len = ls[i].len();
            let copy = crate::text::sub_vec(&ls[i], 0, len);
            assert(copy@ =~= ls@[i as int]@);
            found.push(copy);
            assert(views(found@) =~= before.push(lv[i as int]));
        } else {
            assert(views(found@) =~= before);
        }
        assert(lv.take(i + 1).last() == lv[i as int]);
        proof {
            reveal(Seq::filter);
            assert(line.view() == lv[i as int]);
        }
        i = i + 1;
    }
    assert(lv.take(ls@.len() as int) =~= lv);
    if found.len() == 0 {
        return "No matches found".to_owned();
    }
    let start = if found.len() <= max { 0 } else { found.len() - max };
    let j = join_lines(&found, start);
    proof {
        assert(views(found@).skip(start as int) =~= last_n(matching(lv, pattern@), max as nat));
    }
    string_of(&j)
}

/// The log file a name refers to, within the log directory: `amp.log` for
/// `amp`; the name itself when that file exists; else the greatest file
/// name beginning with the name; else the name itself.
pub open spec fn spec_log_file(name: Seq<char>, exists_exact: bool, entries: Seq<Seq<char>>) -> Seq<char> {
    if name == "amp"@ {
        "amp.log"@
    } else if exists_exact {
        name
    } else {
        match greatest_with_prefix(entries, name) {
            Some(e) => e,
            None => name,
        }
    }
}

/// The greatest (in `str` order) of the entries that begin with `p`.
pub open spec fn greatest_with_prefix(entries: Seq<Seq<char>>, p: Seq<char>) -> Option<Seq<char>>
    decreases entries.len(),
{
    if entries.len() == 0 {
        None
    } else {
        let rest = greatest_with_prefix(entries.drop_last(), p);
        let e = entries.last();
        if !has_prefix(e, p) {
            rest
        } else {
            match rest {
                Some(m) => if str_lt(m, e) { Some(e) } else { Some(m) },
                None => Some(e),
            }
        }
    }
}

/// Which file of the log directory to read for a log name, given whether
/// a file of exactly that name exists and the names of the directory's
/// entries.
pub fn log_file_name(name: &str, exists_exact: bool, entries: &Vec<String>) -> (r: String)
    ensures
        r@ == spec_log_file(name@, exists_exact, entries.deep_view()),
{
    let nv = chars_of(name);
    if eq_str(&nv, "amp") {
        return "amp.log".to_owned();
    }
    if exists_exact {
        return name.to_owned();
    }
    let ghost ev = entries.deep_view();
    let mut best: Option<usize> = None;
    let mut i: usize = 0;
    while i < entries.len()
        invariant
            i <= entries@.len(),
            ev == entries.deep_view(),
            nv@ == name@,
            match best {
                Some(b) => b < i && greatest_with_prefix(ev.take(i as int), name@) == Some(ev[b as int]),
                None => greatest_with_prefix(ev.take(i as int), name@) is None,
            },
        decreases entries@.len() - i,
    {
        assert(ev.take(i + 1).drop_last() =~= ev.take(i as int));
        assert(ev.take(i + 1).last() == ev[i as int]);
        let e = chars_of(entries[i].as_str());
        if starts_with_str(&e, name) {
            match best {
                Some(b) => {
                    if str_less(entries[b].as_str(), entries[i].as_str()) {
                        best = Some(i);
                    }
                },
                None => {
                    best = Some(i);
                },
            }
        }
        i = i + 1;
    }
    assert(ev.take(entries@.len() as int) =~= ev);
    match best {
        Some(b) => entries[b].clone(),
        None => name.to_owned(),
    }
}

} // verus!
