//! Desktop entries of Cosmix apps: parsing, ordering, and launch commands.
use vstd::prelude::*;
use vstd::utf8::encode_utf8;

use crate::text::{
    append_chars, chars_of, contains_chars, contains_sub, eq_str, has_prefix, join,
    lines_of, split_chars, split_on, starts_with_str, str_lines, string_of, sub_vec, trim,
    trim_vec, views, words, words_of,
};

verus! {

/// A launchable app: its display name and command line.
pub struct AppEntry {
    pub name: String,
    pub command: String,
}

/// What the lines of a desktop file read so far say.
pub struct DesktopAcc {
    pub name: Option<Seq<char>>,
    pub command: Option<Seq<char>>,
    pub categories: Seq<char>,
    pub no_display: bool,
    pub in_entry: bool,
}

/// The leading words that are not `%` field codes.
pub open spec fn until_field_code(ws: Seq<Seq<char>>) -> Seq<Seq<char>>
    decreases ws.len(),
{
    if ws.len() == 0 || has_prefix(ws[0], "%"@) {
        Seq::empty()
    } else {
        seq![ws[0]] + until_field_code(ws.drop_first())
    }
}

/// One line of a desktop file; keys count only inside `[Desktop Entry]`.
pub open spec fn desktop_step(a: DesktopAcc, line: Seq<char>) -> DesktopAcc {
    let l = trim(line);
    if l == "[Desktop Entry]"@ {
        DesktopAcc { in_entry: true, ..a }
    } else if has_prefix(l, "["@) {
        DesktopAcc { in_entry: false, ..a }
    } else if !a.in_entry {
        a
    } else if has_prefix(l, "Name="@) {
        DesktopAcc { name: Some(l.skip(5)), ..a }
    } else if has_prefix(l, "Exec="@) {
        DesktopAcc { command: Some(join(until_field_code(words(l.skip(5))), " "@)), ..a }
    } else if has_prefix(l, "Categories="@) {
        DesktopAcc { categories: l.skip(11), ..a }
    } else if has_prefix(l, "NoDisplay="@) {
        DesktopAcc { no_display: trim(l.skip(10)) == "true"@, ..a }
    } else {
        a
    }
}

/// The lines read in order.
pub open spec fn desktop_scan(lines: Seq<Seq<char>>) -> DesktopAcc
    decreases lines.len(),
{
    if lines.len() == 0 {
        DesktopAcc { name: None, command: None, categories: Seq::empty(), no_display: false, in_entry: false }
    } else {
        desktop_step(desktop_scan(lines.drop_last()), lines.last())
    }
}

/// The app a desktop file describes: one in the `Cosmix` category, shown,
/// not the menu itself, with a name and a command.
pub open spec fn spec_parse_desktop_entry(content: Seq<char>) -> Option<(Seq<char>, Seq<char>)> {
    let a = desktop_scan(str_lines(content));
    if !split_on(a.categories, ';').contains("Cosmix"@) {
        None
    } else if a.no_display {
        None
    } else if a.command matches Some(e) && contains_sub(e, "cosmix-menu"@) {
        None
    } else {
        match (a.name, a.command) {
            (Some(n), Some(e)) => Some((n, e)),
            _ => None,
        }
    }
}

proof fn lemma_until_field_code_take(ws: Seq<Seq<char>>, k: int)
    requires
        0 <= k <= ws.len(),
        forall|i: int| 0 <= i < k ==> !has_prefix(#[trigger] ws[i], "%"@),
        k == ws.len() || has_prefix(ws[k], "%"@),
    ensures
        until_field_code(ws) == ws.take(k),
    decreases k,
{
    if k > 0 {
        assert(!has_prefix(ws[0], "%"@));
        assert forall|i: int| 0 <= i < k - 1 implies !has_prefix(#[trigger] ws.drop_first()[i], "%"@) by {
            assert(ws.drop_first()[i] == ws[i + 1]);
        }
        if k < ws.len() {
            assert(ws.drop_first()[k - 1] == ws[k]);
        }
        lemma_until_field_code_take(ws.drop_first(), k - 1);
        assert(seq![ws[0]] + ws.drop_first().take(k - 1) =~= ws.take(k));
    } else {
        assert(ws.take(0) =~= Seq::<Seq<char>>::empty());
    }
}

/// The command of an `Exec=` value: its words up to the first `%` field
/// code, joined with single spaces.
fn exec_command(val: &[char]) -> (r: String)
    ensures
        r@ == join(until_field_code(words(val@)), " "@),
{
    let ws = words_of(val);
    let ghost wv = views(ws@);
    let mut k: usize = 0;
    while k < ws.len() && !starts_with_str(&ws[k], "%")
        invariant
            k <= ws@.len(),
            wv == views(ws@),
            forall|i: int| 0 <= i < k ==> !has_prefix(#[trigger] wv[i], "%"@),
        decreases ws@.len() - k,
    {
        k = k + 1;
    }
    proof {
        lemma_until_field_code_take(wv, k as int);
    }
    let mut out: Vec<char> = Vec::new();
    let mut i: usize = 0;
    while i < k
        invariant
            i <= k <= ws@.len(),
            wv == views(ws@),
            out@ == join(wv.take(i as int), " "@),
        decreases k - i,
    {
        assert(wv.take(i + 1).drop_last() =~= wv.take(i as int));
        if i > 0 {
            crate::text::append_str(&mut out, " ");
        } else {
            assert(wv.take(1) =~= seq![wv[0]]);
        }
        append_chars(&mut out, &ws[i]);
        i = i + 1;
    }
    string_of(&out)
}

/// The trimmed part of `v` after its first `k` characters.
fn rest_after(v: &[char], k: usize) -> (r: Vec<char>)
    requires
        k <= v@.len(),
    ensures
        r@ == v@.skip(k as int),
{
    let n = v.len();
    let r = sub_vec(v, k, n);
    assert(r@ =~= v@.skip(k as int));
    r
}

/// Parse the text of a `.desktop` file into an app entry.
pub fn parse_desktop_entry(content: &str) -> (r: Option<AppEntry>)
    ensures
        match r {
            Some(e) => spec_parse_desktop_entry(content@) == Some((e.name@, e.command@)),
            None => spec_parse_desktop_entry(content@) is None,
        },
{
    let cv = chars_of(content);
    let lines = lines_of(&cv);
    let ghost lv = views(lines@);
    let mut name: Option<Vec<char>> = None;
    let mut command: Option<String> = None;
    let mut categories: Vec<char> = Vec::new();
    let mut no_display = false;
    let mut in_entry = false;
    let mut i: usize = 0;
    while i < lines.len()
        invariant
            i <= lines@.len(),
            lv == views(lines@),
            desktop_scan(lv.take(i as int)) == (DesktopAcc {
                name: match name { Some(n) => Some(n@), None => None },
                command: match command { Some(e) => Some(e@), None => None },
                categories: categories@,
                no_display,
                in_entry,
            }),
        decreases lines@.len() - i,
    {
        proof {
            reveal_strlit("[");
            reveal_strlit("Name=");
            reveal_strlit("Exec=");
            reveal_strlit("Categories=");
            reveal_strlit("NoDisplay=");
        }
        assert(lv.take(i + 1).drop_last() =~= lv.take(i as int));
        assert(lv.take(i + 1).last() == lines@[i as int]@);
        let l = trim_vec(&lines[i]);
        if eq_str(&l, "[Desktop Entry]") {
            in_entry = true;
        } else if starts_with_str(&l, "[") {
            in_entry = false;
        } else if !in_entry {
        } else if starts_with_str(&l, "Name=") {
            name = Some(rest_after(&l, 5));
        } else if starts_with_str(&l, "Exec=") {
            let val = rest_after(&l, 5);
            command = Some(exec_command(&val));
        } else if starts_with_str(&l, "Categories=") {
            categories = rest_after(&l, 11);
        } else if starts_with_str(&l, "NoDisplay=") {
            let val = rest_after(&l, 10);
            let t = trim_vec(&val);
            no_display = eq_str(&t, "true");
        }
        i = i + 1;
    }
    assert(lv.take(lines@.len() as int) =~= lv);
    let parts = split_chars(&categories, ';');
    let mut found = false;
    let mut k: usize = 0;
    while k < parts.len()
        invariant
            k <= parts@.len(),
            found == exists|j: int| 0 <= j < k && #[trigger] views(parts@)[j] == "Cosmix"@,
        decreases parts@.len() - k,
    {
        if eq_str(&parts[k], "Cosmix") {
            found = true;
            assert(views(parts@)[k as int] == "Cosmix"@);
        }
        proof {
            if !found {
                assert forall|j: int| 0 <= j < k + 1 implies #[trigger] views(parts@)[j] != "Cosmix"@ by {
                    if j == k {
                        assert(views(parts@)[j] == parts@[j]@);
                    }
                }
            }
        }
        k = k + 1;
    }
    proof {
        let pv = views(parts@);
        if found {
            let j = choose|j: int| 0 <= j < k && #[trigger] pv[j] == "Cosmix"@;
            assert(pv.contains("Cosmix"@));
        } else {
            assert(!pv.contains("Cosmix"@));
        }
    }
    if !found {
        return None;
    }
    if no_display {
        return None;
    }
    match &command {
        Some(e) => {
            let ev = chars_of(e.as_str());
            let m = chars_of("cosmix-menu");
            if contains_chars(&ev, &m) {
                return None;
            }
        },
        None => {},
    }
    match (name, command) {
        (Some(n), Some(e)) => Some(AppEntry { name: string_of(&n), command: e }),
        _ => None,
    }
}

// ---------------------------------------------------------------------------
// Ordering
// ---------------------------------------------------------------------------

/// Lexicographic order on byte strings.
pub open spec fn bytes_lt(a: Seq<u8>, b: Seq<u8>) -> bool
    decreases a.len(),
{
    if a.len() == 0 {
        b.len() > 0
    } else if b.len() == 0 {
        false
    } else if a[0] != b[0] {
        a[0] < b[0]
    } else {
        bytes_lt(a.drop_first(), b.drop_first())
    }
}

/// `str` order: lexicographic on the UTF-8 bytes.
pub open spec fn str_lt(a: Seq<char>, b: Seq<char>) -> bool {
    bytes_lt(encode_utf8(a), encode_utf8(b))
}

proof fn lemma_bytes_lt_irreflexive(a: Seq<u8>)
    ensures
        !bytes_lt(a, a),
    decreases a.len(),
{
    if a.len() > 0 {
        lemma_bytes_lt_irreflexive(a.drop_first());
    }
}

proof fn lemma_bytes_lt_transitive(a: Seq<u8>, b: Seq<u8>, c: Seq<u8>)
    requires
        bytes_lt(a, b),
        bytes_lt(b, c),
    ensures
        bytes_lt(a, c),
    decreases a.len(),
{
    if a.len() > 0 && b.len() > 0 && c.len() > 0 && a[0] == b[0] && b[0] == c[0] {
        lemma_bytes_lt_transitive(a.drop_first(), b.drop_first(), c.drop_first());
    }
}

proof fn lemma_bytes_lt_total(a: Seq<u8>, b: Seq<u8>)
    ensures
        a == b || bytes_lt(a, b) || bytes_lt(b, a),
    decreases a.len(),
{
    if a.len() > 0 && b.len() > 0 && a[0] == b[0] {
        lemma_bytes_lt_total(a.drop_first(), b.drop_first());
        if a.drop_first() == b.drop_first() {
            assert(a =~= seq![a[0]] + a.drop_first());
            assert(b =~= seq![b[0]] + b.drop_first());
        }
    } else if a.len() == 0 && b.len() == 0 {
        assert(a =~= b);
    }
}

/// `str_lt` is a strict weak order: irreflexive, asymmetric, and
/// "not before" is transitive.
pub proof fn lemma_str_lt_order(a: Seq<char>, b: Seq<char>, c: Seq<char>)
    ensures
        !str_lt(a, a),
        str_lt(a, b) ==> !str_lt(b, a),
        !str_lt(a, b) && !str_lt(b, c) ==> !str_lt(a, c),
{
    let (x, y, z) = (encode_utf8(a), encode_utf8(b), encode_utf8(c));
    lemma_bytes_lt_irreflexive(x);
    if bytes_lt(x, y) && bytes_lt(y, x) {
        lemma_bytes_lt_transitive(x, y, x);
    }
    if !bytes_lt(x, y) && !bytes_lt(y, z) && bytes_lt(x, z) {
        lemma_bytes_lt_total(x, y);
        if x != y {
            lemma_bytes_lt_transitive(y, x, z);
        }
    }
}

/// The app's command runs the shell.
pub open spec fn is_shell(e: (Seq<char>, Seq<char>)) -> bool {
    contains_sub(e.1, "cosmix-shell"@)
}

/// Menu order: shell first, then by name.
pub open spec fn app_before(a: (Seq<char>, Seq<char>), b: (Seq<char>, Seq<char>)) -> bool {
    (is_shell(a) && !is_shell(b)) || (is_shell(a) == is_shell(b) && str_lt(a.0, b.0))
}

/// Insert `x` after every element it does not come before.
pub open spec fn insert_app(s: Seq<(Seq<char>, Seq<char>)>, x: (Seq<char>, Seq<char>)) -> Seq<(Seq<char>, Seq<char>)>
    decreases s.len(),
{
    if s.len() == 0 || !app_before(x, s.last()) {
        s.push(x)
    } else {
        insert_app(s.drop_last(), x).push(s.last())
    }
}

/// The stable sort of the apps in menu order.
pub open spec fn sort_apps_spec(s: Seq<(Seq<char>, Seq<char>)>) -> Seq<(Seq<char>, Seq<char>)>
    decreases s.len(),
{
    if s.len() == 0 {
        s
    } else {
        insert_app(sort_apps_spec(s.drop_last()), s.last())
    }
}

/// No app in `s` comes before one listed ahead of it.
pub open spec fn apps_in_order(s: Seq<(Seq<char>, Seq<char>)>) -> bool {
    forall|i: int, j: int| #![trigger s[i], s[j]] 0 <= i < j < s.len() ==> !app_before(s[j], s[i])
}

proof fn lemma_app_before_order(a: (Seq<char>, Seq<char>), b: (Seq<char>, Seq<char>), c: (Seq<char>, Seq<char>))
    ensures
        !app_before(a, a),
        app_before(a, b) ==> !app_before(b, a),
        !app_before(a, b) && !app_before(b, c) ==> !app_before(a, c),
{
    lemma_str_lt_order(a.0, b.0, c.0);
    lemma_str_lt_order(b.0, a.0, c.0);
}

proof fn lemma_insert_app_not_before(s: Seq<(Seq<char>, Seq<char>)>, x: (Seq<char>, Seq<char>), y: (Seq<char>, Seq<char>))
    requires
        forall|k: int| 0 <= k < s.len() ==> !app_before(y, #[trigger] s[k]),
        !app_before(y, x),
    ensures
        forall|k: int| 0 <= k < insert_app(s, x).len() ==> !app_before(y, #[trigger] insert_app(s, x)[k]),
        insert_app(s, x).len() == s.len() + 1,
    decreases s.len(),
{
    if s.len() > 0 && app_before(x, s.last()) {
        lemma_insert_app_not_before(s.drop_last(), x, y);
    }
}

proof fn lemma_insert_app_in_order(s: Seq<(Seq<char>, Seq<char>)>, x: (Seq<char>, Seq<char>))
    requires
        apps_in_order(s),
    ensures
        apps_in_order(insert_app(s, x)),
    decreases s.len(),
{
    if s.len() == 0 || !app_before(x, s.last()) {
        assert forall|m: int| 0 <= m < s.len() implies !app_before(x, #[trigger] s[m]) by {
            lemma_app_before_order(x, s.last(), s[m]);
        }
    } else {
        let d = s.drop_last();
        lemma_insert_app_in_order(d, x);
        lemma_app_before_order(x, s.last(), x);
        assert forall|k: int| 0 <= k < d.len() implies !app_before(s.last(), #[trigger] d[k]) by {
            assert(s[k] == d[k]);
        }
        lemma_insert_app_not_before(d, x, s.last());
    }
}

/// The menu lists no app ahead of one that comes before it: the shell
/// first, then names in ascending order.
pub proof fn law_apps_sorted(s: Seq<(Seq<char>, Seq<char>)>)
    ensures
        apps_in_order(sort_apps_spec(s)),
    decreases s.len(),
{
    if s.len() > 0 {
        law_apps_sorted(s.drop_last());
        lemma_insert_app_in_order(sort_apps_spec(s.drop_last()), s.last());
    }
}

/// Abstract form of app entries.
pub open spec fn apps_view(s: Seq<AppEntry>) -> Seq<(Seq<char>, Seq<char>)> {
    Seq::new(s.len(), |i: int| (s[i].name@, s[i].command@))
}

/// Byte-lexicographic comparison.
fn bytes_less(a: &[u8], b: &[u8]) -> (r: bool)
    ensures
        r == bytes_lt(a@, b@),
{
    let mut i: usize = 0;
    assert(a@.skip(0) =~= a@);
    assert(b@.skip(0) =~= b@);
    while i < a.len() && i < b.len() && a[i] == b[i]
        invariant
            i <= a@.len(),
            i <= b@.len(),
            bytes_lt(a@, b@) == bytes_lt(a@.skip(i as int), b@.skip(i as int)),
        decreases a@.len() - i,
    {
        assert(a@.skip(i as int).drop_first() =~= a@.skip(i + 1));
        assert(b@.skip(i as int).drop_first() =~= b@.skip(i + 1));
        i = i + 1;
    }
    if i == a.len() {
        i < b.len()
    } else if i == b.len() {
        false
    } else {
        a[i] < b[i]
    }
}

/// `a` sorts before `b` as strings.
pub fn str_less(a: &str, b: &str) -> (r: bool)
    ensures
        r == str_lt(a@, b@),
{
    bytes_less(a.as_bytes(), b.as_bytes())
}

proof fn lemma_insert_app_at(s: Seq<(Seq<char>, Seq<char>)>, x: (Seq<char>, Seq<char>), j: int)
    requires
        0 <= j <= s.len(),
        forall|m: int| j <= m < s.len() ==> app_before(x, #[trigger] s[m]),
        j == 0 || !app_before(x, s[j - 1]),
    ensures
        insert_app(s, x) == s.insert(j, x),
    decreases s.len() - j,
{
    if j < s.len() {
        lemma_insert_app_at(s.drop_last(), x, j);
        assert(s.drop_last().insert(j, x).push(s.last()) =~= s.insert(j, x));
    } else {
        assert(s.push(x) =~= s.insert(j, x));
    }
}

/// Whether app `a` comes before app `b` in the menu.
fn app_less(a: &AppEntry, b: &AppEntry) -> (r: bool)
    ensures
        r == app_before((a.name@, a.command@), (b.name@, b.command@)),
{
    let shell = chars_of("cosmix-shell");
    let ae = chars_of(a.command.as_str());
    let be = chars_of(b.command.as_str());
    let a_shell = contains_chars(&ae, &shell);
    let b_shell = contains_chars(&be, &shell);
    if a_shell && !b_shell {
        return true;
    }
    if a_shell != b_shell {
        return false;
    }
    bytes_less(a.name.as_str().as_bytes(), b.name.as_str().as_bytes())
}

/// Sort apps for the menu: the shell first, then by name; apps that compare
/// equal keep their order.
pub fn sort_apps(apps: Vec<AppEntry>) -> (sorted: Vec<AppEntry>)
    ensures
        apps_view(sorted@) == sort_apps_spec(apps_view(apps@)),
{
    let ghost av = apps_view(apps@);
    let ghost orig = apps@;
    let n = apps.len();
    let mut sorted: Vec<AppEntry> = Vec::new();
    let mut rest = apps;
    let mut i: usize = 0;
    while rest.len() > 0
        invariant
            i + rest@.len() == av.len(),
            n == av.len(),
            av.len() == orig.len(),
            rest@ == orig.skip(i as int),
            av == apps_view(orig),
            apps_view(sorted@) == sort_apps_spec(av.take(i as int)),
        decreases rest@.len(),
    {
        let ghost r0 = rest@;
        let x = rest.remove(0);
        proof {
            assert(x == orig[i as int]);
            assert((x.name@, x.command@) == av[i as int]);
            assert(rest@ =~= orig.skip(i + 1));
        }
        let ghost sv = apps_view(sorted@);
        let mut j = sorted.len();
        while j > 0 && app_less(&x, &sorted[j - 1])
            invariant
                j <= sorted@.len(),
                sv == apps_view(sorted@),
                forall|m: int| j <= m < sv.len() ==> app_before((x.name@, x.command@), #[trigger] sv[m]),
            decreases j,
        {
            j = j - 1;
        }
        proof {
            lemma_insert_app_at(sv, (x.name@, x.command@), j as int);
            assert(av.take(i + 1).drop_last() =~= av.take(i as int));
        }
        sorted.insert(j, x);
        proof {
            assert(apps_view(sorted@) =~= sv.insert(j as int, av[i as int]));
        }
        i = i + 1;
    }
    assert(av.take(i as int) =~= av);
    sorted
}

/// Program and arguments of a command line (its whitespace-separated words).
pub fn launch_command(command_line: &str) -> (r: Option<(String, Vec<String>)>)
    ensures
        match r {
            Some((cmd, args)) => words(command_line@).len() > 0 && cmd@ == words(command_line@)[0]
                && args.deep_view() == words(command_line@).drop_first(),
            None => words(command_line@).len() == 0,
        },
{
    let v = chars_of(command_line);
    let ws = words_of(&v);
    let ghost wv = views(ws@);
    if ws.len() == 0 {
        return None;
    }
    let cmd = string_of(&ws[0]);
    let mut args: Vec<String> = Vec::new();
    let mut i: usize = 1;
    while i < ws.len()
        invariant
            1 <= i <= ws@.len(),
            wv == views(ws@),
            args.deep_view() == wv.subrange(1, i as int),
        decreases ws@.len() - i,
    {
        let ghost a0 = args.deep_view();
        let w = string_of(&ws[i]);
        assert(w@ == wv[i as int]);
        args.push(w);
        assert(args.deep_view() =~= a0.push(wv[i as int]));
        assert(args.deep_view() =~= wv.subrange(1, i + 1));
        i = i + 1;
    }
    assert(wv.subrange(1, wv.len() as int) =~= wv.drop_first());
    Some((cmd, args))
}

} // verus!
